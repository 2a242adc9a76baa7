//! Building commands and reading their payloads back.
use vstd::prelude::*;
use crate::asset_ptr::AssetPtr;
use crate::asset_surface::GroupSurface;
use crate::buffer::{Buffer, BufferError, lemma_buffer_len};
use crate::command::{
    EngineCommand, OP_DROP_ALL_GROUPS, OP_DROP_GROUPS, OP_EXTRACT_GEOMETRIC_FEATURES,
    OP_GET_SURFACE_TYPES, OP_GROUP_ALL_OBJECTS, OP_ORGANIZE_OBJECTS, OP_SEND_MESH,
    OP_SET_SURFACE_TYPES, OP_STANDARDIZE_GROUPS, OP_STANDARDIZE_SYNCED_GROUPS, OP_STOP_ENGINE,
    blank, list_payload, read_list, vec_result,
};
use crate::fields::Uuid;
use crate::allocation::{ALLOC_META_SIZE, AllocRequestMeta, alloc_second_offset, lemma_three_words};
use crate::buffer::{
    WireItem, get_items, items_from_wire, lemma_read_back_at, lemma_wire_seq_index,
    lemma_wire_seq_len, put_items, wire_seq,
};
use crate::bytes::{
    array64_of, find_zero, get_u32_le, le_u32, le_u64, lemma_find_zero_at,
    lemma_splice_append, lemma_u64_le_roundtrip,
    lemma_u32_le_roundtrip, position_of_zero, put_bytes, put_u32_le, splice, u32_le,
};
use crate::command::{
    OP_ALLOC_MEM, OP_EXPORT_ALL, OP_EXPORT_ASSET_TBO, OP_EXPORT_ASSETS, OP_IMPORT_ASSETS, alloc_payload,
    lemma_align_32, lemma_align_4, lemma_alloc_payload_parts, round_up,
};
use crate::text::{
    lemma_scan_strings_wire, lemma_strings_wire_len, lemma_utf8_no_zero, put_strings,
    read_strings, scan_strings, storable, strings_wire, strs_bytes, strs_result, utf8_between,
};
use crate::MAX_INLINE_DATA;
use vstd::utf8::{encode_utf8, encode_utf8_valid_utf8, valid_utf8};
use vstd::string::StringSliceAdditionalSpecFns;

verus! {

broadcast use lemma_buffer_len;

/// A command with every field zero and a blank payload.
pub open spec fn blank_command(cmd: EngineCommand) -> bool {
    &&& cmd.should_cache == 0
    &&& cmd.op_id == 0
    &&& cmd.num_headers == 0
    &&& cmd.inline_data@ == blank()
}

/// Whether an allocation payload for `n` assets, with a second array of
/// `item`-byte values, fits in the payload.
pub open spec fn alloc_payload_fits(n: nat, item: nat) -> bool {
    alloc_second_offset(n as u64) + n * item <= MAX_INLINE_DATA
}

/// The header of the allocation request for `n` assets.
pub open spec fn alloc_request_meta(n: nat) -> AllocRequestMeta {
    AllocRequestMeta {
        num_assets: n as u64,
        offset_uuids: ALLOC_META_SIZE,
        offset_sizes: alloc_second_offset(n as u64) as usize,
    }
}

/// The payload of an allocation request: header, identifiers, sizes.
pub open spec fn alloc_request_payload(uuids: Seq<Uuid>, sizes: Seq<usize>) -> Seq<u8> {
    let meta = alloc_request_meta(uuids.len());
    alloc_payload(meta.spec_to_wire(), uuids, meta.offset_sizes as int, sizes)
}

/// What reading an allocation request gives: the header says how many
/// assets and where their identifiers and sizes lie; refused with
/// `Corrupted` when either array would end past the payload.
pub open spec fn read_alloc_request_spec(payload: Seq<u8>) -> Result<
    (Seq<Uuid>, Seq<usize>),
    BufferError,
> {
    let meta = AllocRequestMeta::spec_from_wire(payload.subrange(0, 24));
    let n = (meta.num_assets as usize) as int;
    if meta.offset_sizes + n * 8 > MAX_INLINE_DATA || meta.offset_uuids + n * 32
        > MAX_INLINE_DATA {
        Err(BufferError::Corrupted)
    } else {
        Ok(
            (
                items_from_wire::<Uuid>(payload.skip(meta.offset_uuids as int), n as nat),
                items_from_wire::<usize>(payload.skip(meta.offset_sizes as int), n as nat),
            ),
        )
    }
}

/// The values of a successful read of two arrays.
pub open spec fn pair_result<A, B>(r: Result<(Vec<A>, Vec<B>), BufferError>) -> Result<
    (Seq<A>, Seq<B>),
    BufferError,
> {
    match r {
        Ok((a, b)) => Ok((a@, b@)),
        Err(e) => Err(e),
    }
}

/// Reading an allocation request gives back the identifiers and sizes it
/// was built from.
pub proof fn lemma_alloc_request_roundtrip(uuids: Seq<Uuid>, sizes: Seq<usize>)
    requires
        uuids.len() == sizes.len(),
        alloc_payload_fits(uuids.len(), 8),
    ensures
        read_alloc_request_spec(alloc_request_payload(uuids, sizes)) == Ok::<
            (Seq<Uuid>, Seq<usize>),
            BufferError,
        >((uuids, sizes)),
{
    let n = uuids.len();
    let meta = alloc_request_meta(n);
    meta.lemma_wire_len();
    meta.lemma_wire_roundtrip();
    lemma_alloc_payload_parts(meta.spec_to_wire(), uuids, meta.offset_sizes as int, sizes);
    let p = alloc_request_payload(uuids, sizes);
    assert(p.subrange(0, 24) == meta.spec_to_wire());
    assert(AllocRequestMeta::spec_from_wire(p.subrange(0, 24)) == meta);
}

/// The payload of an allocation request starts with three little-endian
/// 64-bit words: the number of assets, 24 (where the identifiers start,
/// right after these words) and where the requested sizes start, the first 32-byte
/// boundary after the identifiers; the identifiers and the requested sizes lie
/// there.
pub proof fn lemma_alloc_request_layout(uuids: Seq<Uuid>, sizes: Seq<usize>)
    requires
        uuids.len() == sizes.len(),
        alloc_payload_fits(uuids.len(), 8),
    ensures
        le_u64(alloc_request_payload(uuids, sizes).subrange(0, 8)) == uuids.len(),
        le_u64(alloc_request_payload(uuids, sizes).subrange(8, 16)) == 24,
        le_u64(alloc_request_payload(uuids, sizes).subrange(16, 24)) == alloc_second_offset(uuids.len() as u64),
        items_from_wire::<Uuid>(alloc_request_payload(uuids, sizes).skip(24), uuids.len()) == uuids,
        items_from_wire::<usize>(
            alloc_request_payload(uuids, sizes).skip(alloc_second_offset(uuids.len() as u64)),
            uuids.len(),
        ) == sizes,
{
    let n = uuids.len();
    let meta = alloc_request_meta(n);
    meta.lemma_wire_len();
    lemma_alloc_payload_parts(meta.spec_to_wire(), uuids, meta.offset_sizes as int, sizes);
    let p = alloc_request_payload(uuids, sizes);
    lemma_three_words(meta.num_assets, meta.offset_uuids as u64, meta.offset_sizes as u64);
    assert(p.subrange(0, 8) =~= p.subrange(0, 24).subrange(0, 8));
    assert(p.subrange(8, 16) =~= p.subrange(0, 24).subrange(8, 16));
    assert(p.subrange(16, 24) =~= p.subrange(0, 24).subrange(16, 24));
    assert(n <= MAX_INLINE_DATA);
}

/// Reading an allocation request takes the number of assets from the
/// first little-endian 64-bit word of the payload, the identifiers from
/// where the second word says and the requested sizes from where the third says.
pub proof fn lemma_read_alloc_request_layout(p: Seq<u8>)
    requires
        24 <= p.len(),
    ensures
        read_alloc_request_spec(p) matches Ok((u, v)) ==> {
            let n = (le_u64(p.subrange(0, 8)) as usize) as nat;
            &&& u == items_from_wire::<Uuid>(p.skip((le_u64(p.subrange(8, 16)) as usize) as int), n)
            &&& v == items_from_wire::<usize>(p.skip((le_u64(p.subrange(16, 24)) as usize) as int), n)
        },
{
    let h = p.subrange(0, 24);
    assert(h.subrange(0, 8) =~= p.subrange(0, 8));
    assert(h.subrange(8, 16) =~= p.subrange(8, 16));
    assert(h.subrange(16, 24) =~= p.subrange(16, 24));
}

/// The layout of an export payload for a path of `path_len` bytes: where
/// the target size goes and where the identifiers start.
pub open spec fn export_target_at(path_len: int) -> int {
    round_up(path_len + 1, 4)
}

/// Where the identifiers of an export payload start.
pub open spec fn export_items_at(path_len: int) -> int {
    round_up(export_target_at(path_len) + 4, 32)
}

/// The payload of an `export_assets` command: the path and its terminator,
/// the target size on the next 4-byte boundary, then the identifiers on the
/// next 32-byte boundary.
pub open spec fn export_assets_payload(path: Seq<u8>, target: u32, uuids: Seq<Uuid>) -> Seq<u8> {
    splice(
        splice(
            splice(blank(), 0, path + seq![0u8]),
            export_target_at(path.len() as int),
            u32_le(target),
        ),
        export_items_at(path.len() as int),
        wire_seq(uuids),
    )
}

/// What reading an `export_assets` command gives: the path up to the first
/// zero byte, the target size and `count` identifiers.
pub open spec fn read_export_assets_spec(payload: Seq<u8>, count: nat) -> Result<
    (Seq<u8>, u32, Seq<Uuid>),
    BufferError,
> {
    match find_zero(payload, 0) {
        None => Err(BufferError::Corrupted),
        Some(e) => if !valid_utf8(payload.subrange(0, e)) {
            Err(BufferError::InvalidUtf8)
        } else if export_target_at(e) + 4 > MAX_INLINE_DATA {
            Err(BufferError::Corrupted)
        } else if export_items_at(e) + count * 32 > MAX_INLINE_DATA {
            Err(BufferError::Corrupted)
        } else {
            Ok(
                (
                    payload.subrange(0, e),
                    le_u32(payload.subrange(export_target_at(e), export_target_at(e) + 4)),
                    items_from_wire::<Uuid>(payload.skip(export_items_at(e)), count),
                ),
            )
        },
    }
}

/// The bytes of the path of a successful read.
pub open spec fn export_assets_result(r: Result<(&str, u32, Vec<Uuid>), BufferError>) -> Result<
    (Seq<u8>, u32, Seq<Uuid>),
    BufferError,
> {
    match r {
        Ok((p, t, v)) => Ok((p.spec_bytes(), t, v@)),
        Err(e) => Err(e),
    }
}

/// The path of a payload that starts with the bytes of text free of NUL
/// characters ends where the text does.
proof fn lemma_path_end(payload: Seq<u8>, path: Seq<char>)
    requires
        !path.contains('\0'),
        encode_utf8(path).len() < payload.len(),
        payload.subrange(0, encode_utf8(path).len() as int) == encode_utf8(path),
        payload[encode_utf8(path).len() as int] == 0,
    ensures
        find_zero(payload, 0) == Some(encode_utf8(path).len() as int),
        valid_utf8(payload.subrange(0, encode_utf8(path).len() as int)),
{
    let b = encode_utf8(path);
    lemma_utf8_no_zero(path);
    encode_utf8_valid_utf8(path);
    assert forall|j: int| 0 <= j < b.len() implies payload[j] != 0 by {
        assert(payload[j] == payload.subrange(0, b.len() as int)[j]);
    }
    lemma_find_zero_at(payload, 0, b.len() as int);
}

/// Reading an `export_assets` command gives back the path, target size and
/// identifiers it was built from, when the path holds no NUL character.
pub proof fn lemma_export_assets_roundtrip(path: Seq<char>, target: u32, uuids: Seq<Uuid>)
    requires
        !path.contains('\0'),
        export_items_at(encode_utf8(path).len() as int) + uuids.len() * 32 <= MAX_INLINE_DATA,
    ensures
        read_export_assets_spec(
            export_assets_payload(encode_utf8(path), target, uuids),
            (uuids.len() as u32) as nat,
        ) == Ok::<(Seq<u8>, u32, Seq<Uuid>), BufferError>((encode_utf8(path), target, uuids)),
{
    let b = encode_utf8(path);
    let l = b.len() as int;
    let t = export_target_at(l);
    let s = export_items_at(l);
    let p = export_assets_payload(b, target, uuids);
    lemma_wire_seq_len(uuids);
    lemma_u32_le_roundtrip(target);
    assert(p.subrange(0, l) =~= b);
    assert(p[l] == 0);
    lemma_path_end(p, path);
    assert(p.subrange(t, t + 4) =~= u32_le(target));
    assert(p.subrange(s, s + uuids.len() * 32) =~= wire_seq(uuids));
    lemma_read_back_at(p, s, uuids);
}

/// The payload of an `export_all` command: the path and its terminator,
/// then the target size on the next 4-byte boundary.
pub open spec fn export_all_payload(path: Seq<u8>, target: u32) -> Seq<u8> {
    splice(
        splice(blank(), 0, path + seq![0u8]),
        export_target_at(path.len() as int),
        u32_le(target),
    )
}

/// What reading an `export_all` command gives: the path up to the first
/// zero byte and the target size.
pub open spec fn read_export_all_spec(payload: Seq<u8>) -> Result<(Seq<u8>, u32), BufferError> {
    match find_zero(payload, 0) {
        None => Err(BufferError::Corrupted),
        Some(e) => if !valid_utf8(payload.subrange(0, e)) {
            Err(BufferError::InvalidUtf8)
        } else if export_target_at(e) + 4 > MAX_INLINE_DATA {
            Err(BufferError::Corrupted)
        } else {
            Ok(
                (
                    payload.subrange(0, e),
                    le_u32(payload.subrange(export_target_at(e), export_target_at(e) + 4)),
                ),
            )
        },
    }
}

/// The bytes of the path of a successful read.
pub open spec fn export_all_result(r: Result<(&str, u32), BufferError>) -> Result<
    (Seq<u8>, u32),
    BufferError,
> {
    match r {
        Ok((p, t)) => Ok((p.spec_bytes(), t)),
        Err(e) => Err(e),
    }
}

/// Reading an `export_all` command gives back the path and target size it
/// was built from, when the path holds no NUL character.
pub proof fn lemma_export_all_roundtrip(path: Seq<char>, target: u32)
    requires
        !path.contains('\0'),
        export_target_at(encode_utf8(path).len() as int) + 4 <= MAX_INLINE_DATA,
    ensures
        read_export_all_spec(export_all_payload(encode_utf8(path), target)) == Ok::<
            (Seq<u8>, u32),
            BufferError,
        >((encode_utf8(path), target)),
{
    let b = encode_utf8(path);
    let l = b.len() as int;
    let t = export_target_at(l);
    let p = export_all_payload(b, target);
    lemma_u32_le_roundtrip(target);
    assert(p.subrange(0, l) =~= b);
    assert(p[l] == 0);
    lemma_path_end(p, path);
    assert(p.subrange(t, t + 4) =~= u32_le(target));
}

/// The first multiple of 4 at or after `v` is `round_up(v, 4)`.
proof fn lemma_round_up_4(v: int, t: int)
    requires
        0 <= v <= t < v + 4,
        t % 4 == 0,
    ensures
        round_up(v, 4) == t,
{
}

/// The first multiple of 32 at or after `v` is `round_up(v, 32)`.
proof fn lemma_round_up_32(v: int, u: int)
    requires
        0 <= v <= u < v + 32,
        u % 32 == 0,
    ensures
        round_up(v, 32) == u,
{
}

/// A zero found by the search is a zero byte at or after where it started.
proof fn lemma_find_zero_found(data: Seq<u8>, from: int)
    requires
        find_zero(data, from) is Some,
    ensures
        from <= find_zero(data, from)->Some_0 < data.len(),
        data[find_zero(data, from)->Some_0] == 0,
    decreases data.len() - from,
{
    if 0 <= from < data.len() && data[from] != 0 {
        lemma_find_zero_found(data, from + 1);
    }
}

/// The payload of an `export_all` command holds the path from 0, a zero
/// byte after it, and the target size as a little-endian 32-bit word at
/// the first multiple of 4 after that zero byte.
pub proof fn lemma_export_all_layout(path: Seq<u8>, target: u32, t: int)
    requires
        t % 4 == 0,
        path.len() + 1 <= t < path.len() + 5,
        t + 4 <= MAX_INLINE_DATA,
    ensures
        export_all_payload(path, target).subrange(0, path.len() as int) == path,
        export_all_payload(path, target)[path.len() as int] == 0,
        le_u32(export_all_payload(path, target).subrange(t, t + 4)) == target,
{
    let l = path.len() as int;
    lemma_round_up_4(l + 1, t);
    lemma_u32_le_roundtrip(target);
    let p = export_all_payload(path, target);
    let p1 = splice(blank(), 0, path + seq![0u8]);
    assert(p1.len() == MAX_INLINE_DATA);
    assert(p.subrange(0, l) =~= path);
    assert(p[l] == p1[l]);
    assert(p.subrange(t, t + 4) =~= u32_le(target));
}

/// The payload of an `export_assets` command holds the path from 0, a zero
/// byte after it, the target size as a little-endian 32-bit word at the
/// first multiple of 4 after that zero byte, and the identifiers from the
/// first multiple of 32 after the target size.
pub proof fn lemma_export_assets_layout(path: Seq<u8>, target: u32, uuids: Seq<Uuid>, t: int, u: int)
    requires
        t % 4 == 0,
        path.len() + 1 <= t < path.len() + 5,
        u % 32 == 0,
        t + 4 <= u < t + 36,
        u + uuids.len() * 32 <= MAX_INLINE_DATA,
    ensures
        export_assets_payload(path, target, uuids).subrange(0, path.len() as int) == path,
        export_assets_payload(path, target, uuids)[path.len() as int] == 0,
        le_u32(export_assets_payload(path, target, uuids).subrange(t, t + 4)) == target,
        items_from_wire::<Uuid>(export_assets_payload(path, target, uuids).skip(u), uuids.len())
            == uuids,
{
    let l = path.len() as int;
    lemma_round_up_4(l + 1, t);
    lemma_round_up_32(t + 4, u);
    lemma_u32_le_roundtrip(target);
    lemma_wire_seq_len(uuids);
    let p = export_assets_payload(path, target, uuids);
    let p1 = splice(blank(), 0, path + seq![0u8]);
    assert(p1.len() == MAX_INLINE_DATA);
    assert(p.subrange(0, l) =~= path);
    assert(p[l] == p1[l]);
    assert(p.subrange(t, t + 4) =~= u32_le(target));
    assert(p.subrange(u, u + uuids.len() * 32) =~= wire_seq(uuids));
    lemma_read_back_at(p, u, uuids);
}

/// Reading an `export_all` command takes the path up to the first zero
/// byte and the target size from the first multiple of 4 after it.
pub proof fn lemma_read_export_all_layout(p: Seq<u8>, t: int)
    ensures
        read_export_all_spec(p) matches Ok((path, target)) ==> {
            &&& p.subrange(0, path.len() as int) == path
            &&& p[path.len() as int] == 0
            &&& (t % 4 == 0 && path.len() + 1 <= t < path.len() + 5 ==> target == le_u32(
                p.subrange(t, t + 4),
            ))
        },
{
    if find_zero(p, 0) is Some {
        lemma_find_zero_found(p, 0);
        let e = find_zero(p, 0)->Some_0;
        if t % 4 == 0 && e + 1 <= t < e + 5 {
            lemma_round_up_4(e + 1, t);
        }
    }
}

/// Reading an `export_assets` command takes the path up to the first zero
/// byte, the target size from the first multiple of 4 after it and the
/// identifiers from the first multiple of 32 after the target size.
pub proof fn lemma_read_export_assets_layout(p: Seq<u8>, count: nat, t: int, u: int)
    ensures
        read_export_assets_spec(p, count) matches Ok((path, target, uuids)) ==> {
            &&& p.subrange(0, path.len() as int) == path
            &&& p[path.len() as int] == 0
            &&& (t % 4 == 0 && path.len() + 1 <= t < path.len() + 5 ==> target == le_u32(
                p.subrange(t, t + 4),
            ))
            &&& (t % 4 == 0 && path.len() + 1 <= t < path.len() + 5 && u % 32 == 0 && t + 4 <= u
                < t + 36 ==> uuids == items_from_wire::<Uuid>(p.skip(u), count))
        },
{
    if find_zero(p, 0) is Some {
        lemma_find_zero_found(p, 0);
        let e = find_zero(p, 0)->Some_0;
        if t % 4 == 0 && e + 1 <= t < e + 5 {
            lemma_round_up_4(e + 1, t);
            if u % 32 == 0 && t + 4 <= u < t + 36 {
                lemma_round_up_32(t + 4, u);
            }
        }
    }
}

/// The payload of an `import_assets` command: each path followed by a zero
/// byte, one after the other.
pub open spec fn import_assets_payload(paths: Seq<Seq<u8>>) -> Seq<u8> {
    splice(blank(), 0, strings_wire(paths))
}

/// Reading an `import_assets` command gives back the paths it was built
/// from, when each is nonempty and free of NUL characters.
pub proof fn lemma_import_assets_roundtrip(paths: Seq<Seq<u8>>)
    requires
        forall|i: int| 0 <= i < paths.len() ==> storable(#[trigger] paths[i]),
        strings_wire(paths).len() <= MAX_INLINE_DATA,
    ensures
        scan_strings(import_assets_payload(paths), 0, (paths.len() as u32) as nat) == Ok::<
            Seq<Seq<u8>>,
            BufferError,
        >(paths),
{
    lemma_strings_wire_len(paths);
    let p = import_assets_payload(paths);
    assert(p.subrange(0, strings_wire(paths).len() as int) =~= strings_wire(paths));
    lemma_scan_strings_wire(p, 0, paths);
}


/// The fields of a `tbo_export` command, in payload order: five slab names,
/// fifteen 64-bit words (data pointer, offset pointer and remaining room for
/// the scene, asset, fragment, points and faces streams), ten flags and the
/// target point count.
pub type TboExportFields = ([u8; 64], [u8; 64], [u8; 64], [u8; 64], [u8; 64], u64, u64, u64, u64, u64, u64, u64, u64, u64, u64, u64, u64, u64, u64, u64, bool, bool, bool, bool, bool, bool, bool, bool, bool, bool, u32);

/// The byte stored for a flag.
pub open spec fn flag_byte(b: bool) -> u8 {
    if b {
        1
    } else {
        0
    }
}

/// The five slab names of a `tbo_export` command.
pub open spec fn tbo_names(f: TboExportFields) -> Seq<[u8; 64]> {
    seq![f.0, f.1, f.2, f.3, f.4]
}

/// The fifteen words of a `tbo_export` command.
pub open spec fn tbo_words(f: TboExportFields) -> Seq<u64> {
    seq![f.5, f.6, f.7, f.8, f.9, f.10, f.11, f.12, f.13, f.14, f.15, f.16, f.17, f.18, f.19]
}

/// The bytes of the ten flags of a `tbo_export` command.
pub open spec fn tbo_flags(f: TboExportFields) -> Seq<u8> {
    seq![flag_byte(f.20), flag_byte(f.21), flag_byte(f.22), flag_byte(f.23), flag_byte(f.24), flag_byte(f.25), flag_byte(f.26), flag_byte(f.27), flag_byte(f.28), flag_byte(f.29)]
}

/// The image of a `tbo_export` payload: the names from 0, the words from
/// 320, the flags from 440 and the target point count at 452.
pub open spec fn tbo_image(f: TboExportFields) -> Seq<u8> {
    wire_seq(tbo_names(f)) + wire_seq(tbo_words(f)) + tbo_flags(f) + seq![0u8, 0u8] + u32_le(f.30)
}

/// The payload of a `tbo_export` command.
pub open spec fn tbo_export_payload(f: TboExportFields) -> Seq<u8> {
    splice(blank(), 0, tbo_image(f))
}

/// The fields read from a `tbo_export` payload; a flag is set when its byte
/// is not zero.
pub open spec fn tbo_decode(p: Seq<u8>) -> TboExportFields {
    let names = items_from_wire::<[u8; 64]>(p, 5);
    let words = items_from_wire::<u64>(p.skip(320), 15);
    (
        names[0],
        names[1],
        names[2],
        names[3],
        names[4],
        words[0],
        words[1],
        words[2],
        words[3],
        words[4],
        words[5],
        words[6],
        words[7],
        words[8],
        words[9],
        words[10],
        words[11],
        words[12],
        words[13],
        words[14],
        p[440] != 0,
        p[441] != 0,
        p[442] != 0,
        p[443] != 0,
        p[444] != 0,
        p[445] != 0,
        p[446] != 0,
        p[447] != 0,
        p[448] != 0,
        p[449] != 0,
        le_u32(p.subrange(452, 456)),
    )
}

/// Reading a `tbo_export` payload gives back the fields it was built from.
pub proof fn lemma_tbo_export_roundtrip(f: TboExportFields)
    ensures
        tbo_decode(tbo_export_payload(f)) == f,
{
    let p = tbo_export_payload(f);
    let n = tbo_names(f);
    let w = tbo_words(f);
    lemma_wire_seq_len(n);
    lemma_wire_seq_len(w);
    lemma_u32_le_roundtrip(f.30);
    assert(n.len() == 5);
    assert(w.len() == 15);
    assert(wire_seq(n).len() == 320);
    assert(wire_seq(w).len() == 120);
    assert(tbo_image(f).len() == 456);
    assert(p.subrange(0, 320) =~= wire_seq(n));
    assert(p.subrange(320, 440) =~= wire_seq(w));
    lemma_read_back_at(p, 0, n);
    lemma_read_back_at(p, 320, w);
    assert(p.skip(0) =~= p);
    assert(p[440] == flag_byte(f.20));
    assert(p[441] == flag_byte(f.21));
    assert(p[442] == flag_byte(f.22));
    assert(p[443] == flag_byte(f.23));
    assert(p[444] == flag_byte(f.24));
    assert(p[445] == flag_byte(f.25));
    assert(p[446] == flag_byte(f.26));
    assert(p[447] == flag_byte(f.27));
    assert(p[448] == flag_byte(f.28));
    assert(p[449] == flag_byte(f.29));
    assert(p.subrange(452, 456) =~= u32_le(f.30));
}

/// The `tbo_export` payload puts each field at its place: the five slab
/// names at 0, 64, 128, 192 and 256; the fifteen words, in parameter order
/// (data pointer, offset pointer, remaining room for the scene, asset,
/// fragment, points and faces streams), as little-endian 64-bit words from
/// 320, eight bytes apart; the ten flags as bytes 1 or 0 from 440; the
/// target point count as a little-endian 32-bit word at 452.
#[verifier::rlimit(60)]
pub proof fn lemma_tbo_export_layout(f: TboExportFields)
    ensures
        tbo_export_payload(f).subrange(0, 64) == f.0@,
        tbo_export_payload(f).subrange(64, 128) == f.1@,
        tbo_export_payload(f).subrange(128, 192) == f.2@,
        tbo_export_payload(f).subrange(192, 256) == f.3@,
        tbo_export_payload(f).subrange(256, 320) == f.4@,
        le_u64(tbo_export_payload(f).subrange(320, 328)) == f.5,
        le_u64(tbo_export_payload(f).subrange(328, 336)) == f.6,
        le_u64(tbo_export_payload(f).subrange(336, 344)) == f.7,
        le_u64(tbo_export_payload(f).subrange(344, 352)) == f.8,
        le_u64(tbo_export_payload(f).subrange(352, 360)) == f.9,
        le_u64(tbo_export_payload(f).subrange(360, 368)) == f.10,
        le_u64(tbo_export_payload(f).subrange(368, 376)) == f.11,
        le_u64(tbo_export_payload(f).subrange(376, 384)) == f.12,
        le_u64(tbo_export_payload(f).subrange(384, 392)) == f.13,
        le_u64(tbo_export_payload(f).subrange(392, 400)) == f.14,
        le_u64(tbo_export_payload(f).subrange(400, 408)) == f.15,
        le_u64(tbo_export_payload(f).subrange(408, 416)) == f.16,
        le_u64(tbo_export_payload(f).subrange(416, 424)) == f.17,
        le_u64(tbo_export_payload(f).subrange(424, 432)) == f.18,
        le_u64(tbo_export_payload(f).subrange(432, 440)) == f.19,
        tbo_export_payload(f)[440] == (if f.20 { 1u8 } else { 0u8 }),
        tbo_export_payload(f)[441] == (if f.21 { 1u8 } else { 0u8 }),
        tbo_export_payload(f)[442] == (if f.22 { 1u8 } else { 0u8 }),
        tbo_export_payload(f)[443] == (if f.23 { 1u8 } else { 0u8 }),
        tbo_export_payload(f)[444] == (if f.24 { 1u8 } else { 0u8 }),
        tbo_export_payload(f)[445] == (if f.25 { 1u8 } else { 0u8 }),
        tbo_export_payload(f)[446] == (if f.26 { 1u8 } else { 0u8 }),
        tbo_export_payload(f)[447] == (if f.27 { 1u8 } else { 0u8 }),
        tbo_export_payload(f)[448] == (if f.28 { 1u8 } else { 0u8 }),
        tbo_export_payload(f)[449] == (if f.29 { 1u8 } else { 0u8 }),
        le_u32(tbo_export_payload(f).subrange(452, 456)) == f.30,
{
    let p = tbo_export_payload(f);
    let n = tbo_names(f);
    let w = tbo_words(f);
    lemma_wire_seq_len(n);
    lemma_wire_seq_len(w);
    lemma_u32_le_roundtrip(f.30);
    assert(n.len() == 5);
    assert(w.len() == 15);
    assert(wire_seq(n).len() == 320);
    assert(wire_seq(w).len() == 120);
    assert(tbo_image(f).len() == 456);
    lemma_wire_seq_index(n, 0);
    assert(p.subrange(0, 64) =~= wire_seq(n).subrange(0, 64));
    lemma_wire_seq_index(n, 1);
    assert(p.subrange(64, 128) =~= wire_seq(n).subrange(64, 128));
    lemma_wire_seq_index(n, 2);
    assert(p.subrange(128, 192) =~= wire_seq(n).subrange(128, 192));
    lemma_wire_seq_index(n, 3);
    assert(p.subrange(192, 256) =~= wire_seq(n).subrange(192, 256));
    lemma_wire_seq_index(n, 4);
    assert(p.subrange(256, 320) =~= wire_seq(n).subrange(256, 320));
    lemma_wire_seq_index(w, 0);
    lemma_u64_le_roundtrip(f.5);
    assert(p.subrange(320, 328) =~= wire_seq(w).subrange(0, 8));
    lemma_wire_seq_index(w, 1);
    lemma_u64_le_roundtrip(f.6);
    assert(p.subrange(328, 336) =~= wire_seq(w).subrange(8, 16));
    lemma_wire_seq_index(w, 2);
    lemma_u64_le_roundtrip(f.7);
    assert(p.subrange(336, 344) =~= wire_seq(w).subrange(16, 24));
    lemma_wire_seq_index(w, 3);
    lemma_u64_le_roundtrip(f.8);
    assert(p.subrange(344, 352) =~= wire_seq(w).subrange(24, 32));
    lemma_wire_seq_index(w, 4);
    lemma_u64_le_roundtrip(f.9);
    assert(p.subrange(352, 360) =~= wire_seq(w).subrange(32, 40));
    lemma_wire_seq_index(w, 5);
    lemma_u64_le_roundtrip(f.10);
    assert(p.subrange(360, 368) =~= wire_seq(w).subrange(40, 48));
    lemma_wire_seq_index(w, 6);
    lemma_u64_le_roundtrip(f.11);
    assert(p.subrange(368, 376) =~= wire_seq(w).subrange(48, 56));
    lemma_wire_seq_index(w, 7);
    lemma_u64_le_roundtrip(f.12);
    assert(p.subrange(376, 384) =~= wire_seq(w).subrange(56, 64));
    lemma_wire_seq_index(w, 8);
    lemma_u64_le_roundtrip(f.13);
    assert(p.subrange(384, 392) =~= wire_seq(w).subrange(64, 72));
    lemma_wire_seq_index(w, 9);
    lemma_u64_le_roundtrip(f.14);
    assert(p.subrange(392, 400) =~= wire_seq(w).subrange(72, 80));
    lemma_wire_seq_index(w, 10);
    lemma_u64_le_roundtrip(f.15);
    assert(p.subrange(400, 408) =~= wire_seq(w).subrange(80, 88));
    lemma_wire_seq_index(w, 11);
    lemma_u64_le_roundtrip(f.16);
    assert(p.subrange(408, 416) =~= wire_seq(w).subrange(88, 96));
    lemma_wire_seq_index(w, 12);
    lemma_u64_le_roundtrip(f.17);
    assert(p.subrange(416, 424) =~= wire_seq(w).subrange(96, 104));
    lemma_wire_seq_index(w, 13);
    lemma_u64_le_roundtrip(f.18);
    assert(p.subrange(424, 432) =~= wire_seq(w).subrange(104, 112));
    lemma_wire_seq_index(w, 14);
    lemma_u64_le_roundtrip(f.19);
    assert(p.subrange(432, 440) =~= wire_seq(w).subrange(112, 120));
    assert(p.subrange(452, 456) =~= u32_le(f.30));
}

/// Reading a `tbo_export` payload takes each field from its place: the slab
/// names from 0, 64, 128, 192 and 256, the fifteen words from 320 eight
/// bytes apart, the flags from the bytes at 440 to 449 and the target point
/// count from 452.
#[verifier::rlimit(60)]
pub proof fn lemma_tbo_decode_layout(p: Seq<u8>)
    requires
        456 <= p.len(),
    ensures
        tbo_decode(p).0 == array64_of(p.subrange(0, 64)),
        tbo_decode(p).1 == array64_of(p.subrange(64, 128)),
        tbo_decode(p).2 == array64_of(p.subrange(128, 192)),
        tbo_decode(p).3 == array64_of(p.subrange(192, 256)),
        tbo_decode(p).4 == array64_of(p.subrange(256, 320)),
        tbo_decode(p).5 == le_u64(p.subrange(320, 328)),
        tbo_decode(p).6 == le_u64(p.subrange(328, 336)),
        tbo_decode(p).7 == le_u64(p.subrange(336, 344)),
        tbo_decode(p).8 == le_u64(p.subrange(344, 352)),
        tbo_decode(p).9 == le_u64(p.subrange(352, 360)),
        tbo_decode(p).10 == le_u64(p.subrange(360, 368)),
        tbo_decode(p).11 == le_u64(p.subrange(368, 376)),
        tbo_decode(p).12 == le_u64(p.subrange(376, 384)),
        tbo_decode(p).13 == le_u64(p.subrange(384, 392)),
        tbo_decode(p).14 == le_u64(p.subrange(392, 400)),
        tbo_decode(p).15 == le_u64(p.subrange(400, 408)),
        tbo_decode(p).16 == le_u64(p.subrange(408, 416)),
        tbo_decode(p).17 == le_u64(p.subrange(416, 424)),
        tbo_decode(p).18 == le_u64(p.subrange(424, 432)),
        tbo_decode(p).19 == le_u64(p.subrange(432, 440)),
        tbo_decode(p).20 == (p[440] != 0),
        tbo_decode(p).21 == (p[441] != 0),
        tbo_decode(p).22 == (p[442] != 0),
        tbo_decode(p).23 == (p[443] != 0),
        tbo_decode(p).24 == (p[444] != 0),
        tbo_decode(p).25 == (p[445] != 0),
        tbo_decode(p).26 == (p[446] != 0),
        tbo_decode(p).27 == (p[447] != 0),
        tbo_decode(p).28 == (p[448] != 0),
        tbo_decode(p).29 == (p[449] != 0),
        tbo_decode(p).30 == le_u32(p.subrange(452, 456)),
{
    let names = items_from_wire::<[u8; 64]>(p, 5);
    let words = items_from_wire::<u64>(p.skip(320), 15);
    assert(names[0] == array64_of(p.subrange(0, 64)));
    assert(names[1] == array64_of(p.subrange(64, 128)));
    assert(names[2] == array64_of(p.subrange(128, 192)));
    assert(names[3] == array64_of(p.subrange(192, 256)));
    assert(names[4] == array64_of(p.subrange(256, 320)));
    assert(p.skip(320).subrange(0, 8) =~= p.subrange(320, 328));
    assert(p.skip(320).subrange(8, 16) =~= p.subrange(328, 336));
    assert(p.skip(320).subrange(16, 24) =~= p.subrange(336, 344));
    assert(p.skip(320).subrange(24, 32) =~= p.subrange(344, 352));
    assert(p.skip(320).subrange(32, 40) =~= p.subrange(352, 360));
    assert(p.skip(320).subrange(40, 48) =~= p.subrange(360, 368));
    assert(p.skip(320).subrange(48, 56) =~= p.subrange(368, 376));
    assert(p.skip(320).subrange(56, 64) =~= p.subrange(376, 384));
    assert(p.skip(320).subrange(64, 72) =~= p.subrange(384, 392));
    assert(p.skip(320).subrange(72, 80) =~= p.subrange(392, 400));
    assert(p.skip(320).subrange(80, 88) =~= p.subrange(400, 408));
    assert(p.skip(320).subrange(88, 96) =~= p.subrange(408, 416));
    assert(p.skip(320).subrange(96, 104) =~= p.subrange(416, 424));
    assert(p.skip(320).subrange(104, 112) =~= p.subrange(424, 432));
    assert(p.skip(320).subrange(112, 120) =~= p.subrange(432, 440));
}

impl EngineCommand {
    fn default() -> (cmd: EngineCommand)
        ensures
            blank_command(cmd),
    {
        EngineCommand { should_cache: 0, op_id: 0, num_headers: 0, inline_data: Buffer::new() }
    }

    // --- send_mesh --------------------------------------------------------
    /// Asks the engine to take the meshes at `ptrs`.
    pub fn send_mesh(ptrs: &[AssetPtr]) -> (cmd: EngineCommand)
        ensures
            cmd.op_id == OP_SEND_MESH,
            cmd.num_headers == ptrs@.len() as u32,
            cmd.should_cache == 0,
            cmd.inline_data@ == list_payload(ptrs@),
    {
        let mut cmd = Self::default();
        cmd.op_id = OP_SEND_MESH;
        cmd.num_headers = ptrs.len() as u32;
        cmd.should_cache = 0;
        let _ = cmd.inline_data.write_asset_ptrs(ptrs);
        cmd
    }

    /// The pointers of a `send_mesh` command.
    pub fn read_send_mesh(&self) -> (r: Result<Vec<AssetPtr>, BufferError>)
        ensures
            vec_result(r) == read_list::<AssetPtr>(self.inline_data@, self.num_headers as nat),
    {
        self.inline_data.read_asset_ptrs(self.num_headers as usize)
    }

    // --- standardize_groups -----------------------------------------------
    /// Asks the engine to standardize the groups `uuids`.
    pub fn standardize_groups(uuids: &[Uuid]) -> (cmd: EngineCommand)
        ensures
            cmd.op_id == OP_STANDARDIZE_GROUPS,
            cmd.num_headers == uuids@.len() as u32,
            cmd.should_cache == 0,
            cmd.inline_data@ == list_payload(uuids@),
    {
        let mut cmd = Self::default();
        cmd.op_id = OP_STANDARDIZE_GROUPS;
        cmd.num_headers = uuids.len() as u32;
        cmd.should_cache = 0;
        let _ = cmd.inline_data.write_uuids(uuids);
        cmd
    }

    /// The groups of a `standardize_groups` command.
    pub fn read_standardize_groups(&self) -> (r: Result<Vec<Uuid>, BufferError>)
        ensures
            vec_result(r) == read_list::<Uuid>(self.inline_data@, self.num_headers as nat),
    {
        self.inline_data.read_uuids(self.num_headers as usize)
    }

    // --- standardize_synced_groups ----------------------------------------
    /// Asks the engine to standardize groups with the given surfaces.
    pub fn standardize_synced_groups(surfaces: &[GroupSurface], should_cache: u16) -> (cmd:
        EngineCommand)
        ensures
            cmd.op_id == OP_STANDARDIZE_SYNCED_GROUPS,
            cmd.num_headers == surfaces@.len() as u32,
            cmd.should_cache == should_cache,
            cmd.inline_data@ == list_payload(surfaces@),
    {
        let mut cmd = Self::default();
        cmd.op_id = OP_STANDARDIZE_SYNCED_GROUPS;
        cmd.num_headers = surfaces.len() as u32;
        cmd.should_cache = should_cache;
        let _ = cmd.inline_data.write_group_surfaces(surfaces);
        cmd
    }

    /// The surfaces of a `standardize_synced_groups` command.
    pub fn read_standardize_synced_groups(&self) -> (r: Result<Vec<GroupSurface>, BufferError>)
        ensures
            vec_result(r) == read_list::<GroupSurface>(self.inline_data@, self.num_headers as nat),
    {
        self.inline_data.read_group_surfaces(self.num_headers as usize)
    }

    // --- set_surface_types ------------------------------------------------
    /// Asks the engine to set the surface types of groups.
    pub fn set_surface_types(surfaces: &[GroupSurface], should_cache: u16) -> (cmd:
        EngineCommand)
        ensures
            cmd.op_id == OP_SET_SURFACE_TYPES,
            cmd.num_headers == surfaces@.len() as u32,
            cmd.should_cache == should_cache,
            cmd.inline_data@ == list_payload(surfaces@),
    {
        let mut cmd = Self::default();
        cmd.op_id = OP_SET_SURFACE_TYPES;
        cmd.num_headers = surfaces.len() as u32;
        cmd.should_cache = should_cache;
        let _ = cmd.inline_data.write_group_surfaces(surfaces);
        cmd
    }

    /// The surfaces of a `set_surface_types` command.
    pub fn read_set_surface_types(&self) -> (r: Result<Vec<GroupSurface>, BufferError>)
        ensures
            vec_result(r) == read_list::<GroupSurface>(self.inline_data@, self.num_headers as nat),
    {
        self.inline_data.read_group_surfaces(self.num_headers as usize)
    }

    // --- drop_groups ------------------------------------------------------
    /// Asks the engine to drop the groups `uuids`.
    pub fn drop_groups(uuids: &[Uuid], should_cache: u16) -> (cmd: EngineCommand)
        ensures
            cmd.op_id == OP_DROP_GROUPS,
            cmd.num_headers == uuids@.len() as u32,
            cmd.should_cache == should_cache,
            cmd.inline_data@ == list_payload(uuids@),
    {
        let mut cmd = Self::default();
        cmd.op_id = OP_DROP_GROUPS;
        cmd.num_headers = uuids.len() as u32;
        cmd.should_cache = should_cache;
        let _ = cmd.inline_data.write_uuids(uuids);
        cmd
    }

    /// The groups of a `drop_groups` command.
    pub fn read_drop_groups(&self) -> (r: Result<Vec<Uuid>, BufferError>)
        ensures
            vec_result(r) == read_list::<Uuid>(self.inline_data@, self.num_headers as nat),
    {
        self.inline_data.read_uuids(self.num_headers as usize)
    }

    // --- organize_objects -------------------------------------------------
    /// Asks the engine to organize the objects of the scene.
    pub fn organize_objects(should_cache: u16) -> (cmd: EngineCommand)
        ensures
            cmd.op_id == OP_ORGANIZE_OBJECTS,
            cmd.num_headers == 0,
            cmd.should_cache == should_cache,
            cmd.inline_data@ == blank(),
    {
        let mut cmd = Self::default();
        cmd.op_id = OP_ORGANIZE_OBJECTS;
        cmd.should_cache = should_cache;
        cmd
    }

    /// An `organize_objects` command carries no payload.
    pub fn read_organize_objects(&self) {
    }

    // --- get_surface_types ------------------------------------------------
    /// Asks the engine for the surface types of the groups.
    pub fn get_surface_types(should_cache: u16) -> (cmd: EngineCommand)
        ensures
            cmd.op_id == OP_GET_SURFACE_TYPES,
            cmd.num_headers == 0,
            cmd.should_cache == should_cache,
            cmd.inline_data@ == blank(),
    {
        let mut cmd = Self::default();
        cmd.op_id = OP_GET_SURFACE_TYPES;
        cmd.should_cache = should_cache;
        cmd
    }

    /// A `get_surface_types` command carries no payload.
    pub fn read_get_surface_types(&self) {
    }

    // --- stop_engine ------------------------------------------------------
    /// Asks the engine to stop.
    pub fn stop_engine() -> (cmd: EngineCommand)
        ensures
            cmd.op_id == OP_STOP_ENGINE,
            cmd.num_headers == 0,
            cmd.should_cache == 0,
            cmd.inline_data@ == blank(),
    {
        let mut cmd = Self::default();
        cmd.op_id = OP_STOP_ENGINE;
        cmd
    }

    /// A `stop_engine` command carries no payload.
    pub fn read_stop_engine(&self) {
    }

    // --- extract_geometric_features ---------------------------------------
    /// Asks the engine to extract the geometric features of the groups
    /// `uuids`.
    pub fn extract_geometric_features(uuids: &[Uuid], should_cache: u16) -> (cmd: EngineCommand)
        ensures
            cmd.op_id == OP_EXTRACT_GEOMETRIC_FEATURES,
            cmd.num_headers == uuids@.len() as u32,
            cmd.should_cache == should_cache,
            cmd.inline_data@ == list_payload(uuids@),
    {
        let mut cmd = Self::default();
        cmd.op_id = OP_EXTRACT_GEOMETRIC_FEATURES;
        cmd.num_headers = uuids.len() as u32;
        cmd.should_cache = should_cache;
        let _ = cmd.inline_data.write_uuids(uuids);
        cmd
    }

    /// The groups of an `extract_geometric_features` command.
    pub fn read_extract_geometric_features(&self) -> (r: Result<Vec<Uuid>, BufferError>)
        ensures
            vec_result(r) == read_list::<Uuid>(self.inline_data@, self.num_headers as nat),
    {
        self.inline_data.read_uuids(self.num_headers as usize)
    }

    // --- drop_all_groups --------------------------------------------------
    /// Asks the engine to drop every group.
    pub fn drop_all_groups() -> (cmd: EngineCommand)
        ensures
            cmd.op_id == OP_DROP_ALL_GROUPS,
            cmd.num_headers == 0,
            cmd.should_cache == 0,
            cmd.inline_data@ == blank(),
    {
        let mut cmd = Self::default();
        cmd.op_id = OP_DROP_ALL_GROUPS;
        cmd
    }

    /// A `drop_all_groups` command carries no payload.
    pub fn read_drop_all_groups(&self) {
    }

    // --- group_all_objects ------------------------------------------------
    /// Asks the engine to put every object into a group.
    pub fn group_all_objects() -> (cmd: EngineCommand)
        ensures
            cmd.op_id == OP_GROUP_ALL_OBJECTS,
            cmd.num_headers == 0,
            cmd.should_cache == 0,
            cmd.inline_data@ == blank(),
    {
        let mut cmd = Self::default();
        cmd.op_id = OP_GROUP_ALL_OBJECTS;
        cmd
    }

    /// A `group_all_objects` command carries no payload.
    pub fn read_group_all_objects(&self) {
    }

    // --- alloc_request ----------------------------------------------------
    /// Asks the engine to allocate `sizes[i]` bytes for asset `uuids[i]`.
    pub fn alloc_request(uuids: &[Uuid], sizes: &[usize]) -> (cmd: EngineCommand)
        requires
            uuids@.len() == sizes@.len(),
            alloc_payload_fits(uuids@.len(), 8),
        ensures
            cmd.op_id == OP_ALLOC_MEM,
            cmd.num_headers == 1,
            cmd.should_cache == 1,
            cmd.inline_data@ == alloc_request_payload(uuids@, sizes@),
    {
        let meta = AllocRequestMeta::new(uuids.len() as u64);
        let mut cmd = Self::default();
        cmd.op_id = OP_ALLOC_MEM;
        cmd.num_headers = 1;
        cmd.should_cache = 1;
        let data = cmd.inline_data.as_mut();
        meta.to_wire(data, 0);
        put_items(data, meta.offset_uuids, uuids);
        put_items(data, meta.offset_sizes, sizes);
        cmd
    }

    /// The identifiers and sizes of an `alloc_request` command.
    pub fn read_alloc_request(&self) -> (r: Result<(Vec<Uuid>, Vec<usize>), BufferError>)
        ensures
            pair_result(r) == read_alloc_request_spec(self.inline_data@),
    {
        let data = self.inline_data.as_ref();
        let meta = AllocRequestMeta::from_wire(data, 0);
        let num = meta.num_assets as usize;
        let size_bytes = match num.checked_mul(8) {
            Some(v) => v,
            None => return Err(BufferError::Corrupted),
        };
        let size_end = match meta.offset_sizes.checked_add(size_bytes) {
            Some(v) => v,
            None => return Err(BufferError::Corrupted),
        };
        if size_end > MAX_INLINE_DATA {
            return Err(BufferError::Corrupted);
        }
        let uuid_bytes = match num.checked_mul(32) {
            Some(v) => v,
            None => return Err(BufferError::Corrupted),
        };
        let uuid_end = match meta.offset_uuids.checked_add(uuid_bytes) {
            Some(v) => v,
            None => return Err(BufferError::Corrupted),
        };
        if uuid_end > MAX_INLINE_DATA {
            return Err(BufferError::Corrupted);
        }
        let uuids = get_items(data, meta.offset_uuids, num);
        let sizes = get_items(data, meta.offset_sizes, num);
        Ok((uuids, sizes))
    }

    // --- export_assets ----------------------------------------------------
    /// Asks the engine to export the assets `uuids` to `path`, aiming at
    /// files of `target_bytes` bytes.
    pub fn export_assets(path: &str, target_bytes: u32, uuids: &[Uuid]) -> (cmd: EngineCommand)
        requires
            export_items_at(path.spec_bytes().len() as int) + uuids@.len() * 32
                <= MAX_INLINE_DATA,
        ensures
            cmd.op_id == OP_EXPORT_ASSETS,
            cmd.num_headers == uuids@.len() as u32,
            cmd.should_cache == 0,
            cmd.inline_data@ == export_assets_payload(path.spec_bytes(), target_bytes, uuids@),
    {
        let path_len = path.len() + 1;
        let aligned_after_path = Buffer::align_up(path_len, 4);
        proof {
            assert(4usize & 3usize == 0) by (bit_vector);
            lemma_align_4(path_len, aligned_after_path);
        }
        let after_target = aligned_after_path + 4;
        let aligned_uuid_start = Buffer::align_up(after_target, 32);
        proof {
            assert(32usize & 31usize == 0) by (bit_vector);
            lemma_align_32(after_target, aligned_uuid_start);
        }
        let mut cmd = Self::default();
        cmd.op_id = OP_EXPORT_ASSETS;
        cmd.num_headers = uuids.len() as u32;
        cmd.should_cache = 0;
        let data = cmd.inline_data.as_mut();
        let bytes = path.as_bytes();
        let ghost d0 = data@;
        put_bytes(data, 0, bytes);
        data[path_len - 1] = 0;
        proof {
            assert(data@ =~= splice(d0, 0, path.spec_bytes() + seq![0u8]));
        }
        put_u32_le(data, aligned_after_path, target_bytes);
        put_items(data, aligned_uuid_start, uuids);
        cmd
    }

    /// The path, target size and identifiers of an `export_assets` command.
    pub fn read_export_assets(&self) -> (r: Result<(&str, u32, Vec<Uuid>), BufferError>)
        ensures
            export_assets_result(r) == read_export_assets_spec(
                self.inline_data@,
                self.num_headers as nat,
            ),
    {
        let data = self.inline_data.as_ref();
        let path_end = match position_of_zero(data, 0) {
            Some(k) => k,
            None => return Err(BufferError::Corrupted),
        };
        let path = match utf8_between(data, 0, path_end) {
            Some(s) => s,
            None => return Err(BufferError::InvalidUtf8),
        };
        let aligned_offset = Buffer::align_up(path_end + 1, 4);
        proof {
            assert(4usize & 3usize == 0) by (bit_vector);
            lemma_align_4((path_end + 1) as usize, aligned_offset);
        }
        if aligned_offset + 4 > MAX_INLINE_DATA {
            return Err(BufferError::Corrupted);
        }
        let target_bytes = get_u32_le(data, aligned_offset);
        let uuid_start = Buffer::align_up(aligned_offset + 4, 32);
        proof {
            assert(32usize & 31usize == 0) by (bit_vector);
            lemma_align_32((aligned_offset + 4) as usize, uuid_start);
        }
        let num = self.num_headers as usize;
        let uuid_bytes = match num.checked_mul(32) {
            Some(v) => v,
            None => return Err(BufferError::Corrupted),
        };
        let uuid_end = match uuid_start.checked_add(uuid_bytes) {
            Some(v) => v,
            None => return Err(BufferError::Corrupted),
        };
        if uuid_end > MAX_INLINE_DATA {
            return Err(BufferError::Corrupted);
        }
        let uuids = get_items(data, uuid_start, num);
        Ok((path, target_bytes, uuids))
    }

    // --- export_all -------------------------------------------------------
    /// Asks the engine to export every asset to `path`, aiming at files of
    /// `target_bytes` bytes.
    pub fn export_all(path: &str, target_bytes: u32) -> (cmd: EngineCommand)
        requires
            export_target_at(path.spec_bytes().len() as int) + 4 <= MAX_INLINE_DATA,
        ensures
            cmd.op_id == OP_EXPORT_ALL,
            cmd.num_headers == 0,
            cmd.should_cache == 0,
            cmd.inline_data@ == export_all_payload(path.spec_bytes(), target_bytes),
    {
        let path_len = path.len() + 1;
        let aligned_after_path = Buffer::align_up(path_len, 4);
        proof {
            assert(4usize & 3usize == 0) by (bit_vector);
            lemma_align_4(path_len, aligned_after_path);
        }
        let mut cmd = Self::default();
        cmd.op_id = OP_EXPORT_ALL;
        cmd.should_cache = 0;
        let data = cmd.inline_data.as_mut();
        let bytes = path.as_bytes();
        let ghost d0 = data@;
        put_bytes(data, 0, bytes);
        data[path_len - 1] = 0;
        proof {
            assert(data@ =~= splice(d0, 0, path.spec_bytes() + seq![0u8]));
        }
        put_u32_le(data, aligned_after_path, target_bytes);
        cmd
    }

    /// The path and target size of an `export_all` command.
    pub fn read_export_all(&self) -> (r: Result<(&str, u32), BufferError>)
        ensures
            export_all_result(r) == read_export_all_spec(self.inline_data@),
    {
        let data = self.inline_data.as_ref();
        let path_end = match position_of_zero(data, 0) {
            Some(k) => k,
            None => return Err(BufferError::Corrupted),
        };
        let path = match utf8_between(data, 0, path_end) {
            Some(s) => s,
            None => return Err(BufferError::InvalidUtf8),
        };
        let aligned_offset = Buffer::align_up(path_end + 1, 4);
        proof {
            assert(4usize & 3usize == 0) by (bit_vector);
            lemma_align_4((path_end + 1) as usize, aligned_offset);
        }
        if aligned_offset + 4 > MAX_INLINE_DATA {
            return Err(BufferError::Corrupted);
        }
        let target_bytes = get_u32_le(data, aligned_offset);
        Ok((path, target_bytes))
    }

    // --- import_assets ----------------------------------------------------
    /// Asks the engine to import the files at `paths`.
    pub fn import_assets(paths: &[&str]) -> (cmd: EngineCommand)
        requires
            strings_wire(strs_bytes(paths@)).len() <= MAX_INLINE_DATA,
        ensures
            cmd.op_id == OP_IMPORT_ASSETS,
            cmd.num_headers == paths@.len() as u32,
            cmd.should_cache == 0,
            cmd.inline_data@ == import_assets_payload(strs_bytes(paths@)),
    {
        let mut cmd = Self::default();
        cmd.op_id = OP_IMPORT_ASSETS;
        put_strings(cmd.inline_data.as_mut(), 0, paths);
        cmd.num_headers = paths.len() as u32;
        cmd
    }

    /// The paths of an `import_assets` command: up to `num_headers` of
    /// them, stopping at an empty one.
    pub fn read_import_assets(&self) -> (r: Result<Vec<&str>, BufferError>)
        ensures
            strs_result(r) == scan_strings(self.inline_data@, 0, self.num_headers as nat),
    {
        read_strings(self.inline_data.as_ref(), 0, self.num_headers as usize)
    }

    // --- tbo_export -------------------------------------------------------
    /// Asks the engine to export point data into five slabs: for each stream,
    /// where the engine writes its data, where it writes offsets and how much
    /// room is left, plus which features to export and the target point
    /// count.
    pub fn tbo_export(
        slab_scene_name: &[u8; 64],
        slab_asset_name: &[u8; 64],
        slab_fragment_name: &[u8; 64],
        slab_points_name: &[u8; 64],
        slab_faces_name: &[u8; 64],
        scene_data_ptr: u64,
        scene_offset_ptr: u64,
        scene_remaining: u64,
        asset_data_ptr: u64,
        asset_offset_ptr: u64,
        asset_remaining: u64,
        frag_data_ptr: u64,
        frag_offset_ptr: u64,
        frag_remaining: u64,
        points_data_ptr: u64,
        points_offset_ptr: u64,
        points_remaining: u64,
        faces_data_ptr: u64,
        faces_offset_ptr: u64,
        faces_remaining: u64,
        scene_transform: bool,
        scene_similarity: bool,
        asset_embedding: bool,
        asset_transform: bool,
        fragment_xyz: bool,
        normal_variance: bool,
        surface_variation: bool,
        combined: bool,
        points_original: bool,
        faces: bool,
        target_point_count: u32,
    ) -> (cmd: EngineCommand)
        ensures
            cmd.op_id == OP_EXPORT_ASSET_TBO,
            cmd.num_headers == 0,
            cmd.should_cache == 0,
            cmd.inline_data@ == tbo_export_payload(
                (*slab_scene_name, *slab_asset_name, *slab_fragment_name, *slab_points_name, *slab_faces_name, scene_data_ptr, scene_offset_ptr, scene_remaining, asset_data_ptr, asset_offset_ptr, asset_remaining, frag_data_ptr, frag_offset_ptr, frag_remaining, points_data_ptr, points_offset_ptr, points_remaining, faces_data_ptr, faces_offset_ptr, faces_remaining, scene_transform, scene_similarity, asset_embedding, asset_transform, fragment_xyz, normal_variance, surface_variation, combined, points_original, faces, target_point_count),
            ),
    {
        let mut cmd = Self::default();
        cmd.op_id = OP_EXPORT_ASSET_TBO;
        cmd.should_cache = 0;
        let data = cmd.inline_data.as_mut();
        let ghost d0 = data@;
        let ghost f: TboExportFields = (*slab_scene_name, *slab_asset_name, *slab_fragment_name, *slab_points_name, *slab_faces_name, scene_data_ptr, scene_offset_ptr, scene_remaining, asset_data_ptr, asset_offset_ptr, asset_remaining, frag_data_ptr, frag_offset_ptr, frag_remaining, points_data_ptr, points_offset_ptr, points_remaining, faces_data_ptr, faces_offset_ptr, faces_remaining, scene_transform, scene_similarity, asset_embedding, asset_transform, fragment_xyz, normal_variance, surface_variation, combined, points_original, faces, target_point_count);
        let name_list: [[u8; 64]; 5] = [*slab_scene_name, *slab_asset_name, *slab_fragment_name, *slab_points_name, *slab_faces_name];
        let word_list: [u64; 15] = [scene_data_ptr, scene_offset_ptr, scene_remaining, asset_data_ptr, asset_offset_ptr, asset_remaining, frag_data_ptr, frag_offset_ptr, frag_remaining, points_data_ptr, points_offset_ptr, points_remaining, faces_data_ptr, faces_offset_ptr, faces_remaining];
        let flag_bytes: [u8; 10] = [
            if scene_transform { 1 } else { 0 },
            if scene_similarity { 1 } else { 0 },
            if asset_embedding { 1 } else { 0 },
            if asset_transform { 1 } else { 0 },
            if fragment_xyz { 1 } else { 0 },
            if normal_variance { 1 } else { 0 },
            if surface_variation { 1 } else { 0 },
            if combined { 1 } else { 0 },
            if points_original { 1 } else { 0 },
            if faces { 1 } else { 0 },
        ];
        let gap: [u8; 2] = [0, 0];
        proof {
            assert(name_list@ =~= tbo_names(f));
            assert(word_list@ =~= tbo_words(f));
            assert(flag_bytes@ =~= tbo_flags(f));
            assert(gap@ =~= seq![0u8, 0u8]);
            lemma_wire_seq_len(tbo_names(f));
            lemma_wire_seq_len(tbo_words(f));
            lemma_splice_append(d0, Seq::empty(), wire_seq(tbo_names(f)));
            assert(Seq::<u8>::empty() + wire_seq(tbo_names(f)) =~= wire_seq(tbo_names(f)));
            assert(splice(d0, 0, Seq::empty()) =~= d0);
        }
        put_items(data, 0, name_list.as_slice());
        proof {
            lemma_splice_append(d0, wire_seq(tbo_names(f)), wire_seq(tbo_words(f)));
        }
        put_items(data, 320, word_list.as_slice());
        proof {
            lemma_splice_append(d0, wire_seq(tbo_names(f)) + wire_seq(tbo_words(f)), tbo_flags(f));
        }
        put_bytes(data, 440, flag_bytes.as_slice());
        proof {
            lemma_splice_append(
                d0,
                wire_seq(tbo_names(f)) + wire_seq(tbo_words(f)) + tbo_flags(f),
                seq![0u8, 0u8],
            );
        }
        put_bytes(data, 450, gap.as_slice());
        proof {
            lemma_splice_append(
                d0,
                wire_seq(tbo_names(f)) + wire_seq(tbo_words(f)) + tbo_flags(f) + seq![0u8, 0u8],
                u32_le(target_point_count),
            );
        }
        put_u32_le(data, 452, target_point_count);
        cmd
    }

    /// The fields of a `tbo_export` command.
    pub fn read_tbo_export(&self) -> (r: Result<TboExportFields, BufferError>)
        ensures
            r == Ok::<TboExportFields, BufferError>(tbo_decode(self.inline_data@)),
    {
        let data = self.inline_data.as_ref();
        let names: Vec<[u8; 64]> = get_items(data, 0, 5);
        let words: Vec<u64> = get_items(data, 320, 15);
        assert(self.inline_data@.skip(0) =~= self.inline_data@);
        let slab_scene_name = names[0];
        let slab_asset_name = names[1];
        let slab_fragment_name = names[2];
        let slab_points_name = names[3];
        let slab_faces_name = names[4];
        let scene_data_ptr = words[0];
        let scene_offset_ptr = words[1];
        let scene_remaining = words[2];
        let asset_data_ptr = words[3];
        let asset_offset_ptr = words[4];
        let asset_remaining = words[5];
        let frag_data_ptr = words[6];
        let frag_offset_ptr = words[7];
        let frag_remaining = words[8];
        let points_data_ptr = words[9];
        let points_offset_ptr = words[10];
        let points_remaining = words[11];
        let faces_data_ptr = words[12];
        let faces_offset_ptr = words[13];
        let faces_remaining = words[14];
        let scene_transform = data[440] != 0;
        let scene_similarity = data[441] != 0;
        let asset_embedding = data[442] != 0;
        let asset_transform = data[443] != 0;
        let fragment_xyz = data[444] != 0;
        let normal_variance = data[445] != 0;
        let surface_variation = data[446] != 0;
        let combined = data[447] != 0;
        let points_original = data[448] != 0;
        let faces = data[449] != 0;
        let target_point_count = get_u32_le(data, 452);
        Ok((slab_scene_name, slab_asset_name, slab_fragment_name, slab_points_name, slab_faces_name, scene_data_ptr, scene_offset_ptr, scene_remaining, asset_data_ptr, asset_offset_ptr, asset_remaining, frag_data_ptr, frag_offset_ptr, frag_remaining, points_data_ptr, points_offset_ptr, points_remaining, faces_data_ptr, faces_offset_ptr, faces_remaining, scene_transform, scene_similarity, asset_embedding, asset_transform, fragment_xyz, normal_variance, surface_variation, combined, points_original, faces, target_point_count))
    }
}

} // verus!
