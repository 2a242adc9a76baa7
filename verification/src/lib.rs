//! Wire types shared between the Pivot engine and its clients.
//!
//! Every message travels as a fixed-size record whose payload is a 64 KiB
//! inline byte buffer.  This crate builds those records and reads them back,
//! and states, with proofs, how the bytes are laid out and that every reader
//! recovers what the matching writer stored.
use vstd::prelude::*;

pub mod asset_meta;
pub mod asset_names;
pub mod asset_ptr;
pub mod asset_surface;
pub mod allocation;
pub mod buffer;
pub mod bytes;
pub mod com_types;
pub mod command;
pub mod fields;
pub mod merge;
pub mod regions;
pub mod text;



verus! {

/// Capacity of the inline payload carried by every command and response.
pub const MAX_INLINE_DATA: usize = 65536;

/// Fixed width of the name fields used in zero-copy records.
pub const MAX_NAME_LEN: usize = 64;

/// Fixed width of a shared-memory handle name.
pub const MAX_HANDLE_LEN: usize = 32;

} // verus!
