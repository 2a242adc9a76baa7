//! Publishing meshes and reading them back.
use vstd::prelude::*;
use crate::asset_ptr::AssetPtr;
use crate::buffer::{Buffer, BufferError, lemma_buffer_len};
use crate::command::{MeshPublish, blank, list_payload, read_list, vec_result, zero_header};
use crate::MAX_HANDLE_LEN;
use crate::bytes::zeros;

verus! {

broadcast use lemma_buffer_len;

/// A publication with a zeroed header and a blank payload.
pub open spec fn blank_publish(m: MeshPublish) -> bool {
    crate::command::blank_header(m.header) && m.inline_data@ == blank()
}

impl MeshPublish {
    fn default() -> (m: MeshPublish)
        ensures
            blank_publish(m),
    {
        MeshPublish { header: zero_header(), inline_data: Buffer::new() }
    }

    /// Publishes the meshes at `ptrs`.
    pub fn send_mesh(ptrs: &[AssetPtr]) -> (m: MeshPublish)
        ensures
            m.header.status == 0,
            m.header.total_slabs == 0,
            m.header.num_items == ptrs@.len() as u32,
            m.header.root_slab_handle@ == zeros(MAX_HANDLE_LEN as nat),
            m.inline_data@ == list_payload(ptrs@),
    {
        let mut mesh = Self::default();
        mesh.header.num_items = ptrs.len() as u32;
        let _ = mesh.inline_data.write_asset_ptrs(ptrs);
        mesh
    }

    /// The pointers of a published mesh.
    pub fn read_send_mesh(&self) -> (r: Result<Vec<AssetPtr>, BufferError>)
        ensures
            vec_result(r) == read_list::<AssetPtr>(self.inline_data@, self.header.num_items as nat),
    {
        self.inline_data.read_asset_ptrs(self.header.num_items as usize)
    }

    /// The publication that follows `standardize_groups`.
    pub fn standardize_groups() -> (m: MeshPublish)
        ensures
            blank_publish(m),
    {
        Self::default()
    }

    /// The status of a `standardize_groups` publication.
    pub fn read_standardize_groups(&self) -> (s: u16)
        ensures
            s == self.header.status,
    {
        self.header.status
    }

    /// The publication that follows `organize_objects`.
    pub fn organize_objects() -> (m: MeshPublish)
        ensures
            blank_publish(m),
    {
        Self::default()
    }

    /// The status of an `organize_objects` publication.
    pub fn read_organize_objects(&self) -> (s: u16)
        ensures
            s == self.header.status,
    {
        self.header.status
    }

    /// The publication that follows `extract_geometric_features`.
    pub fn extract_geometric_features() -> (m: MeshPublish)
        ensures
            blank_publish(m),
    {
        Self::default()
    }

    /// The status of an `extract_geometric_features` publication.
    pub fn read_extract_geometric_features(&self) -> (s: u16)
        ensures
            s == self.header.status,
    {
        self.header.status
    }
}

} // verus!
