use samply_core::windows::{get_addresses_covered_by_range, pe_signature_bytes, pe_signature_to_uuid};

#[test]
fn test_get_addresses_covered_by_range() {
    let empty_slice: &[u32] = &[];
    assert_eq!(get_addresses_covered_by_range(&[2, 4, 6], 0..1), empty_slice);
    assert_eq!(get_addresses_covered_by_range(&[2, 4, 6], 0..2), empty_slice);
    assert_eq!(get_addresses_covered_by_range(&[2, 4, 6], 0..3), &[2]);
    assert_eq!(get_addresses_covered_by_range(&[2, 4, 6], 2..3), &[2]);
    assert_eq!(get_addresses_covered_by_range(&[2, 4, 6], 2..4), &[2]);
    assert_eq!(get_addresses_covered_by_range(&[2, 4, 6], 2..6), &[2, 4]);
    assert_eq!(get_addresses_covered_by_range(&[2, 4, 6], 3..4), empty_slice);
    assert_eq!(get_addresses_covered_by_range(&[2, 4, 6], 2..7), &[2, 4, 6]);
    assert_eq!(get_addresses_covered_by_range(&[2, 4, 6], 5..5), empty_slice);
    assert_eq!(get_addresses_covered_by_range(&[2, 4, 6], 6..6), empty_slice);
    assert_eq!(get_addresses_covered_by_range(&[2, 4, 6], 6..8), &[6]);
    assert_eq!(get_addresses_covered_by_range(&[2, 4, 6], 7..8), empty_slice);
    assert_eq!(get_addresses_covered_by_range(&[2], 0..1), empty_slice);
    assert_eq!(get_addresses_covered_by_range(&[2], 0..2), empty_slice);
    assert_eq!(get_addresses_covered_by_range(&[2], 0..3), &[2]);
    assert_eq!(get_addresses_covered_by_range(&[2], 1..3), &[2]);
    assert_eq!(get_addresses_covered_by_range(&[2], 2..3), &[2]);
    assert_eq!(get_addresses_covered_by_range(&[2], 3..3), empty_slice);
    assert_eq!(get_addresses_covered_by_range(&[2], 3..4), empty_slice);
}

#[test]
fn covered_range_reversed_is_empty() {
    let empty_slice: &[u32] = &[];
    assert_eq!(get_addresses_covered_by_range(&[1, 5, 9], 8..2), empty_slice);
    assert_eq!(get_addresses_covered_by_range(&[], 0..100), empty_slice);
}

#[test]
fn pe_signature_fields_turn_big_endian() {
    let id: [u8; 16] = [0, 1, 2, 3, 4, 5, 6, 7, 8, 9, 10, 11, 12, 13, 14, 15];
    assert_eq!(pe_signature_bytes(&id), [3, 2, 1, 0, 5, 4, 7, 6, 8, 9, 10, 11, 12, 13, 14, 15]);
    let uuid = pe_signature_to_uuid(&id);
    assert_eq!(uuid.as_bytes(), &[3, 2, 1, 0, 5, 4, 7, 6, 8, 9, 10, 11, 12, 13, 14, 15]);
    assert_eq!(uuid.to_string(), "03020100-0504-0706-0809-0a0b0c0d0e0f");
}
