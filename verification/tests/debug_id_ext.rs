use debugid::DebugId;
use samply_core::debug_id_ext::{fold_text_first_page, uuid_fields_from_identifier, DebugIdExt};

#[test]
fn identifier_fields_follow_the_byte_order() {
    let id: Vec<u8> = (1u8..=20).collect();
    let (d1, d2, d3, d4) = uuid_fields_from_identifier(&id, true);
    assert_eq!(d1, 0x04030201);
    assert_eq!(d2, 0x0605);
    assert_eq!(d3, 0x0807);
    assert_eq!(d4, [9, 10, 11, 12, 13, 14, 15, 16]);
    let (d1, d2, d3, _) = uuid_fields_from_identifier(&id, false);
    assert_eq!(d1, 0x01020304);
    assert_eq!(d2, 0x0506);
    assert_eq!(d3, 0x0708);
    // Short identifiers are padded with zeros.
    let (d1, d2, d3, d4) = uuid_fields_from_identifier(&[0xab, 0xcd], true);
    assert_eq!((d1, d2, d3, d4), (0xcdab, 0, 0, [0; 8]));
}

#[test]
fn debug_id_from_identifier() {
    let id: Vec<u8> = (1u8..=20).collect();
    let le = DebugId::from_identifier(&id, true);
    assert_eq!(le.breakpad().to_string(), "0403020106050807090A0B0C0D0E0F100");
    let be = DebugId::from_identifier(&id, false);
    assert_eq!(be.breakpad().to_string(), "0102030405060708090A0B0C0D0E0F100");
}

#[test]
fn text_first_page_is_folded_with_xor() {
    let mut page = vec![0u8; 5000];
    page[0] = 0x0f;
    page[16] = 0xf0;
    page[17] = 0x01;
    // Bytes after the first 4096 do not count.
    page[4096] = 0xff;
    let hash = fold_text_first_page(&page);
    assert_eq!(hash[0], 0xff);
    assert_eq!(hash[1], 0x01);
    assert!(hash[2..].iter().all(|&b| b == 0));
    let id = DebugId::from_text_first_page(&page, false);
    assert_eq!(id.breakpad().to_string(), "FF0100000000000000000000000000000");
    let short = fold_text_first_page(&[1, 2, 3]);
    assert_eq!(&short[..4], &[1, 2, 3, 0]);
}
