use pivot_com_types::asset_ptr::AssetPtr;
use pivot_com_types::asset_surface::GroupSurface;
use pivot_com_types::buffer::{Buffer, BufferError};
use pivot_com_types::fields::Uuid;
use pivot_com_types::MAX_INLINE_DATA;

fn make_uuid(id: u8) -> Uuid {
    let mut bytes = [0u8; Uuid::SIZE];
    bytes[0] = id;
    Uuid { bytes }
}

#[test]
fn test_write_read_uuids() {
    let mut buf = Buffer::new();
    let uuids = [make_uuid(1), make_uuid(2), make_uuid(3)];
    buf.write_uuids(&uuids).unwrap();
    let result = buf.read_uuids(3).unwrap();
    assert_eq!(result, &uuids);
}

#[test]
fn test_write_read_asset_ptrs() {
    let mut buf = Buffer::new();
    let ptrs = [AssetPtr::new(0, 100), AssetPtr::new(1, 200)];
    buf.write_asset_ptrs(&ptrs).unwrap();
    let result = buf.read_asset_ptrs(2).unwrap();
    assert_eq!(result, &ptrs);
}

#[test]
fn test_write_read_group_surfaces() {
    let mut buf = Buffer::new();
    let surfaces = [GroupSurface::new(make_uuid(1), 1), GroupSurface::new(make_uuid(2), 2)];
    buf.write_group_surfaces(&surfaces).unwrap();
    let result = buf.read_group_surfaces(2).unwrap();
    assert_eq!(result, &surfaces);
}

#[test]
fn test_overflow_detection() {
    let mut buf = Buffer::new();
    // 10000 * 32 bytes = 320KB > 64KB
    let large_slice = vec![make_uuid(0); 10000];
    assert!(buf.write_uuids(&large_slice).is_err());
}

#[test]
fn test_new_buffer_is_zero() {
    let buf = Buffer::new();
    assert_eq!(buf.as_ref().len(), MAX_INLINE_DATA);
    assert!(buf.as_ref().iter().all(|&b| b == 0));
}

#[test]
fn test_align_up_values() {
    assert_eq!(Buffer::align_up(0, 4), 0);
    assert_eq!(Buffer::align_up(1, 4), 4);
    assert_eq!(Buffer::align_up(4, 4), 4);
    assert_eq!(Buffer::align_up(5, 32), 32);
    assert_eq!(Buffer::align_up(64, 32), 64);
    assert_eq!(Buffer::align_up(65, 32), 96);
    // With an alignment that is not a power of two the mask is applied as is.
    assert_eq!(Buffer::align_up(6, 3), 8);
}

#[test]
fn test_write_slice_at_offset() {
    let mut buf = Buffer::new();
    buf.write_slice(&[0x0102_0304u32, 0x0a0b_0c0d], 4).unwrap();
    assert_eq!(&buf.as_ref()[0..12], &[0, 0, 0, 0, 4, 3, 2, 1, 0x0d, 0x0c, 0x0b, 0x0a]);
    let words: Vec<u32> = {
        let mut b2 = Buffer::new();
        b2.write_slice(&[7u64], 0).unwrap();
        b2.read_slice::<u32>(2).unwrap()
    };
    assert_eq!(words, vec![7u32, 0]);
}

#[test]
fn test_write_slice_overflow_leaves_payload() {
    let mut buf = Buffer::new();
    buf.write_slice(&[9u32], 0).unwrap();
    let before: Vec<u8> = buf.as_ref().to_vec();
    assert_eq!(buf.write_slice(&[1u32, 2], MAX_INLINE_DATA - 4), Err(BufferError::Overflow));
    assert_eq!(buf.as_ref(), before.as_slice());
    // Exactly filling the payload is accepted.
    assert_eq!(buf.write_slice(&[1u32], MAX_INLINE_DATA - 4), Ok(()));
    assert_eq!(&buf.as_ref()[MAX_INLINE_DATA - 4..], &[1, 0, 0, 0]);
}

#[test]
fn test_read_counts_at_capacity() {
    let buf = Buffer::new();
    assert_eq!(buf.read_uuids(2048).unwrap().len(), 2048);
    assert_eq!(buf.read_uuids(2049), Err(BufferError::Overflow));
    assert_eq!(buf.read_asset_ptrs(8193), Err(BufferError::Overflow));
    assert_eq!(buf.read_group_surfaces(1639), Err(BufferError::Overflow));
    assert_eq!(buf.read_group_surfaces(1638).unwrap().len(), 1638);
}

#[test]
fn test_write_read_roundtrip_on_dirty_payload() {
    let mut buf = Buffer::new();
    for b in buf.as_mut().iter_mut() {
        *b = 0xAB;
    }
    let uuids = [make_uuid(7), make_uuid(8)];
    buf.write_uuids(&uuids).unwrap();
    assert_eq!(buf.read_uuids(2).unwrap(), &uuids);
    assert_eq!(buf.as_ref()[64], 0xAB);
}

#[test]
fn test_buffer_error_messages() {
    assert_eq!(BufferError::Overflow.message(), "Data exceeds buffer capacity");
    assert_eq!(BufferError::Corrupted.message(), "Corrupted or invalid buffer data");
    assert_eq!(BufferError::MismatchedLengths.message(), "Mismatched slice lengths");
    assert_eq!(BufferError::InvalidUtf8.message(), "Invalid UTF-8 sequence");
}

#[test]
fn test_asset_ptr_pack_unpack() {
    assert_eq!(AssetPtr::new(3, 0x1234).unpack(), (3, 0x1234));
    assert_eq!(AssetPtr::new(0xFFFF, 5).unpack(), (0xFFFF, 5));
    // Only the low 48 bits of the offset are kept.
    assert_eq!(AssetPtr::new(1, u64::MAX).unpack(), (1, 0xFFFF_FFFF_FFFF));
    let mut buf = Buffer::new();
    buf.write_asset_ptrs(&[AssetPtr::new(2, 0x10)]).unwrap();
    assert_eq!(&buf.as_ref()[0..8], &[0x10, 0, 0, 0, 0, 0, 2, 0]);
}

#[test]
fn test_group_surface_layout() {
    let s = GroupSurface::new(make_uuid(9), 0x0102);
    assert_eq!(s.uuid, make_uuid(9));
    assert_eq!(s.surface_type, 0x0102);
    let mut buf = Buffer::new();
    buf.write_group_surfaces(&[s]).unwrap();
    assert_eq!(buf.as_ref()[0], 9);
    assert_eq!(&buf.as_ref()[32..40], &[2, 1, 0, 0, 0, 0, 0, 0]);
}

#[test]
fn test_uuid_from_prefix() {
    let short = Uuid::from_prefix(&[1, 2, 3]);
    assert_eq!(&short.bytes[0..3], &[1, 2, 3]);
    assert!(short.bytes[3..].iter().all(|&b| b == 0));
    let long: Vec<u8> = (0..40u8).collect();
    let id = Uuid::from_prefix(&long);
    assert_eq!(&id.bytes[..], &long[0..32]);
}
