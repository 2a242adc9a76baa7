//! Building responses and reading their payloads back.
use vstd::prelude::*;
use crate::allocation::{ALLOC_META_SIZE, AllocResponseMeta, alloc_second_offset, lemma_three_words};
use crate::asset_ptr::AssetPtr;
use crate::buffer::{Buffer, BufferError, WireItem, get_items, items_from_wire, lemma_buffer_len, put_items};
use crate::bytes::{get_u32_le, le_u32, le_u64, lemma_u32_le_roundtrip, put_u32_le, splice, u32_le};
use crate::command::{
    EngineResponse, alloc_payload, blank, blank_header, lemma_alloc_payload_parts, zero_header,
};
use crate::command::engine_command::{alloc_payload_fits, pair_result};
use crate::fields::Uuid;
use crate::text::{
    lemma_scan_strings_wire, lemma_strings_wire_len, put_strings, read_strings, scan_strings,
    storable, strings_wire, strs_bytes, strs_result,
};
use crate::MAX_INLINE_DATA;

verus! {

broadcast use lemma_buffer_len;

/// A response with a zeroed header and a blank payload.
pub open spec fn blank_response(r: EngineResponse) -> bool {
    blank_header(r.header) && r.inline_data@ == blank()
}

/// The header of the allocation response for `n` assets.
pub open spec fn alloc_response_meta(n: nat) -> AllocResponseMeta {
    AllocResponseMeta {
        num_assets: n as u64,
        offset_uuids: ALLOC_META_SIZE,
        offset_packed_ptrs: alloc_second_offset(n as u64) as usize,
    }
}

/// The payload of an allocation response: header, identifiers, pointers.
pub open spec fn alloc_response_payload(uuids: Seq<Uuid>, ptrs: Seq<AssetPtr>) -> Seq<u8> {
    let meta = alloc_response_meta(uuids.len());
    alloc_payload(meta.spec_to_wire(), uuids, meta.offset_packed_ptrs as int, ptrs)
}

/// What reading an allocation response gives: the header says how many
/// assets and where their identifiers and pointers lie; refused with
/// `Corrupted` when either array would end past the payload.
pub open spec fn read_alloc_response_spec(payload: Seq<u8>) -> Result<
    (Seq<Uuid>, Seq<AssetPtr>),
    BufferError,
> {
    let meta = AllocResponseMeta::spec_from_wire(payload.subrange(0, 24));
    let n = (meta.num_assets as usize) as int;
    if meta.offset_packed_ptrs + n * 8 > MAX_INLINE_DATA || meta.offset_uuids + n * 32
        > MAX_INLINE_DATA {
        Err(BufferError::Corrupted)
    } else {
        Ok(
            (
                items_from_wire::<Uuid>(payload.skip(meta.offset_uuids as int), n as nat),
                items_from_wire::<AssetPtr>(payload.skip(meta.offset_packed_ptrs as int), n as nat),
            ),
        )
    }
}

/// Reading an allocation response gives back the identifiers and pointers
/// it was built from.
pub proof fn lemma_alloc_response_roundtrip(uuids: Seq<Uuid>, ptrs: Seq<AssetPtr>)
    requires
        uuids.len() == ptrs.len(),
        alloc_payload_fits(uuids.len(), 8),
    ensures
        read_alloc_response_spec(alloc_response_payload(uuids, ptrs)) == Ok::<
            (Seq<Uuid>, Seq<AssetPtr>),
            BufferError,
        >((uuids, ptrs)),
{
    let n = uuids.len();
    let meta = alloc_response_meta(n);
    meta.lemma_wire_len();
    meta.lemma_wire_roundtrip();
    lemma_alloc_payload_parts(meta.spec_to_wire(), uuids, meta.offset_packed_ptrs as int, ptrs);
    let p = alloc_response_payload(uuids, ptrs);
    assert(p.subrange(0, 24) == meta.spec_to_wire());
}

/// The payload of an allocation response starts with three little-endian
/// 64-bit words: the number of assets, 24 (where the identifiers start,
/// right after these words) and where the packed pointers start, the first 32-byte
/// boundary after the identifiers; the identifiers and the packed pointers lie
/// there.
pub proof fn lemma_alloc_response_layout(uuids: Seq<Uuid>, ptrs: Seq<AssetPtr>)
    requires
        uuids.len() == ptrs.len(),
        alloc_payload_fits(uuids.len(), 8),
    ensures
        le_u64(alloc_response_payload(uuids, ptrs).subrange(0, 8)) == uuids.len(),
        le_u64(alloc_response_payload(uuids, ptrs).subrange(8, 16)) == 24,
        le_u64(alloc_response_payload(uuids, ptrs).subrange(16, 24)) == alloc_second_offset(uuids.len() as u64),
        items_from_wire::<Uuid>(alloc_response_payload(uuids, ptrs).skip(24), uuids.len()) == uuids,
        items_from_wire::<AssetPtr>(
            alloc_response_payload(uuids, ptrs).skip(alloc_second_offset(uuids.len() as u64)),
            uuids.len(),
        ) == ptrs,
{
    let n = uuids.len();
    let meta = alloc_response_meta(n);
    meta.lemma_wire_len();
    lemma_alloc_payload_parts(meta.spec_to_wire(), uuids, meta.offset_packed_ptrs as int, ptrs);
    let p = alloc_response_payload(uuids, ptrs);
    lemma_three_words(meta.num_assets, meta.offset_uuids as u64, meta.offset_packed_ptrs as u64);
    assert(p.subrange(0, 8) =~= p.subrange(0, 24).subrange(0, 8));
    assert(p.subrange(8, 16) =~= p.subrange(0, 24).subrange(8, 16));
    assert(p.subrange(16, 24) =~= p.subrange(0, 24).subrange(16, 24));
    assert(n <= MAX_INLINE_DATA);
}

/// Reading an allocation response takes the number of assets from the
/// first little-endian 64-bit word of the payload, the identifiers from
/// where the second word says and the packed pointers from where the third says.
pub proof fn lemma_read_alloc_response_layout(p: Seq<u8>)
    requires
        24 <= p.len(),
    ensures
        read_alloc_response_spec(p) matches Ok((u, v)) ==> {
            let n = (le_u64(p.subrange(0, 8)) as usize) as nat;
            &&& u == items_from_wire::<Uuid>(p.skip((le_u64(p.subrange(8, 16)) as usize) as int), n)
            &&& v == items_from_wire::<AssetPtr>(p.skip((le_u64(p.subrange(16, 24)) as usize) as int), n)
        },
{
    let h = p.subrange(0, 24);
    assert(h.subrange(0, 8) =~= p.subrange(0, 8));
    assert(h.subrange(8, 16) =~= p.subrange(8, 16));
    assert(h.subrange(16, 24) =~= p.subrange(16, 24));
}

/// The payload of a file-name list: the count, then each name followed by a
/// zero byte.
pub open spec fn file_names_payload(names: Seq<Seq<u8>>) -> Seq<u8> {
    splice(splice(blank(), 0, u32_le(names.len() as u32)), 4, strings_wire(names))
}

/// A file-name list holds the number of names as a little-endian 32-bit
/// word at 0 and the names, each followed by a zero byte, from 4.
pub proof fn lemma_file_names_layout(names: Seq<Seq<u8>>)
    requires
        names.len() <= u32::MAX,
        4 + strings_wire(names).len() <= MAX_INLINE_DATA,
    ensures
        le_u32(file_names_payload(names).subrange(0, 4)) == names.len(),
        file_names_payload(names).subrange(4, 4 + strings_wire(names).len() as int) == strings_wire(
            names,
        ),
{
    let p = file_names_payload(names);
    lemma_u32_le_roundtrip(names.len() as u32);
    assert(p.subrange(0, 4) =~= u32_le(names.len() as u32));
    assert(p.subrange(4, 4 + strings_wire(names).len() as int) =~= strings_wire(names));
}

/// What reading a file-name list gives: up to the stored count of names.
pub open spec fn read_file_names_spec(payload: Seq<u8>) -> Result<Seq<Seq<u8>>, BufferError> {
    scan_strings(payload, 4, le_u32(payload.subrange(0, 4)) as nat)
}

/// Reading a file-name list gives back the names it was built from, when
/// each is nonempty and free of NUL characters.
pub proof fn lemma_file_names_roundtrip(names: Seq<Seq<u8>>)
    requires
        forall|i: int| 0 <= i < names.len() ==> storable(#[trigger] names[i]),
        4 + strings_wire(names).len() <= MAX_INLINE_DATA,
    ensures
        read_file_names_spec(file_names_payload(names)) == Ok::<Seq<Seq<u8>>, BufferError>(names),
{
    lemma_strings_wire_len(names);
    lemma_u32_le_roundtrip(names.len() as u32);
    let p = file_names_payload(names);
    assert(p.subrange(0, 4) =~= u32_le(names.len() as u32));
    assert(p.subrange(4, 4 + strings_wire(names).len() as int) =~= strings_wire(names));
    lemma_scan_strings_wire(p, 4, names);
}

impl EngineResponse {
    fn default() -> (r: EngineResponse)
        ensures
            blank_response(r),
    {
        EngineResponse { header: zero_header(), inline_data: Buffer::new() }
    }

    /// The response to `send_mesh`.
    pub fn send_mesh() -> (r: EngineResponse)
        ensures
            blank_response(r),
    {
        Self::default()
    }

    /// The status of a `send_mesh` response.
    pub fn read_send_mesh(&self) -> (s: u16)
        ensures
            s == self.header.status,
    {
        self.header.status
    }

    /// The response to `standardize_groups`.
    pub fn standardize_groups() -> (r: EngineResponse)
        ensures
            blank_response(r),
    {
        Self::default()
    }

    /// The status of a `standardize_groups` response.
    pub fn read_standardize_groups(&self) -> (s: u16)
        ensures
            s == self.header.status,
    {
        self.header.status
    }

    /// The response to `standardize_synced_groups`.
    pub fn standardize_synced_groups() -> (r: EngineResponse)
        ensures
            blank_response(r),
    {
        Self::default()
    }

    /// The status of a `standardize_synced_groups` response.
    pub fn read_standardize_synced_groups(&self) -> (s: u16)
        ensures
            s == self.header.status,
    {
        self.header.status
    }

    /// The response to `set_surface_types`.
    pub fn set_surface_types() -> (r: EngineResponse)
        ensures
            blank_response(r),
    {
        Self::default()
    }

    /// The status of a `set_surface_types` response.
    pub fn read_set_surface_types(&self) -> (s: u16)
        ensures
            s == self.header.status,
    {
        self.header.status
    }

    /// The response to `drop_groups`.
    pub fn drop_groups() -> (r: EngineResponse)
        ensures
            blank_response(r),
    {
        Self::default()
    }

    /// The status of a `drop_groups` response.
    pub fn read_drop_groups(&self) -> (s: u16)
        ensures
            s == self.header.status,
    {
        self.header.status
    }

    /// The response to `organize_objects`.
    pub fn organize_objects() -> (r: EngineResponse)
        ensures
            blank_response(r),
    {
        Self::default()
    }

    /// The status of an `organize_objects` response.
    pub fn read_organize_objects(&self) -> (s: u16)
        ensures
            s == self.header.status,
    {
        self.header.status
    }

    /// The response to `get_surface_types`.
    pub fn get_surface_types() -> (r: EngineResponse)
        ensures
            blank_response(r),
    {
        Self::default()
    }

    /// The status of a `get_surface_types` response.
    pub fn read_get_surface_types(&self) -> (s: u16)
        ensures
            s == self.header.status,
    {
        self.header.status
    }

    /// The response to `stop_engine`.
    pub fn stop_engine() -> (r: EngineResponse)
        ensures
            blank_response(r),
    {
        Self::default()
    }

    /// The status of a `stop_engine` response.
    pub fn read_stop_engine(&self) -> (s: u16)
        ensures
            s == self.header.status,
    {
        self.header.status
    }

    /// The response to an allocation request: where each asset's memory
    /// lies.
    pub fn alloc_response(uuids: &[Uuid], ptrs: &[AssetPtr]) -> (r: EngineResponse)
        requires
            uuids@.len() == ptrs@.len(),
            alloc_payload_fits(uuids@.len(), 8),
        ensures
            blank_header(r.header),
            r.inline_data@ == alloc_response_payload(uuids@, ptrs@),
    {
        let meta = AllocResponseMeta::new(uuids.len() as u64);
        let mut resp = Self::default();
        let data = resp.inline_data.as_mut();
        meta.to_wire(data, 0);
        put_items(data, meta.offset_uuids, uuids);
        put_items(data, meta.offset_packed_ptrs, ptrs);
        resp
    }

    /// The identifiers and pointers of an allocation response.
    pub fn read_alloc_response(&self) -> (r: Result<(Vec<Uuid>, Vec<AssetPtr>), BufferError>)
        ensures
            pair_result(r) == read_alloc_response_spec(self.inline_data@),
    {
        let data = self.inline_data.as_ref();
        let meta = AllocResponseMeta::from_wire(data, 0);
        let num = meta.num_assets as usize;
        let ptr_bytes = match num.checked_mul(8) {
            Some(v) => v,
            None => return Err(BufferError::Corrupted),
        };
        let ptr_end = match meta.offset_packed_ptrs.checked_add(ptr_bytes) {
            Some(v) => v,
            None => return Err(BufferError::Corrupted),
        };
        if ptr_end > MAX_INLINE_DATA {
            return Err(BufferError::Corrupted);
        }
        let uuid_bytes = match num.checked_mul(32) {
            Some(v) => v,
            None => return Err(BufferError::Corrupted),
        };
        let uuid_end = match meta.offset_uuids.checked_add(uuid_bytes) {
            Some(v) => v,
            None => return Err(BufferError::Corrupted),
        };
        if uuid_end > MAX_INLINE_DATA {
            return Err(BufferError::Corrupted);
        }
        let uuids = get_items(data, meta.offset_uuids, num);
        let ptrs = get_items(data, meta.offset_packed_ptrs, num);
        Ok((uuids, ptrs))
    }

    /// The response to `extract_geometric_features`.
    pub fn extract_geometric_features() -> (r: EngineResponse)
        ensures
            blank_response(r),
    {
        Self::default()
    }

    /// The status of an `extract_geometric_features` response.
    pub fn read_extract_geometric_features(&self) -> (s: u16)
        ensures
            s == self.header.status,
    {
        self.header.status
    }

    /// The response to `export_assets`: the names of the written files.
    pub fn export_assets(filenames: &[&str]) -> (r: EngineResponse)
        requires
            4 + strings_wire(strs_bytes(filenames@)).len() <= MAX_INLINE_DATA,
        ensures
            blank_header(r.header),
            r.inline_data@ == file_names_payload(strs_bytes(filenames@)),
    {
        let count = filenames.len() as u32;
        let mut resp = Self::default();
        let data = resp.inline_data.as_mut();
        put_u32_le(data, 0, count);
        put_strings(data, 4, filenames);
        resp
    }

    /// The file names of an `export_assets` response: up to the stored
    /// count, stopping at an empty one.
    pub fn read_export_assets(&self) -> (r: Result<Vec<&str>, BufferError>)
        ensures
            strs_result(r) == read_file_names_spec(self.inline_data@),
    {
        let data = self.inline_data.as_ref();
        let count = get_u32_le(data, 0) as usize;
        read_strings(data, 4, count)
    }

    /// The response to `export_all`: the names of the written files.
    pub fn export_all(filenames: &[&str]) -> (r: EngineResponse)
        requires
            4 + strings_wire(strs_bytes(filenames@)).len() <= MAX_INLINE_DATA,
        ensures
            blank_header(r.header),
            r.inline_data@ == file_names_payload(strs_bytes(filenames@)),
    {
        Self::export_assets(filenames)
    }

    /// The file names of an `export_all` response.
    pub fn read_export_all(&self) -> (r: Result<Vec<&str>, BufferError>)
        ensures
            strs_result(r) == read_file_names_spec(self.inline_data@),
    {
        self.read_export_assets()
    }

    /// The response to `import_assets`.
    pub fn import_assets() -> (r: EngineResponse)
        ensures
            blank_response(r),
    {
        Self::default()
    }

    /// The status of an `import_assets` response.
    pub fn read_import_assets(&self) -> (s: u16)
        ensures
            s == self.header.status,
    {
        self.header.status
    }
}

} // verus!
