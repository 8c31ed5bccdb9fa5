use samply_core::macho::{translate_addresses_to_object, AddressWithOffset, FunctionsWithAddresses};
use samply_core::symbols::{object_to_map, ObjectExport, ObjectSymbol};

fn sym(address: u64, is_text: bool, name: Option<&str>) -> ObjectSymbol {
    ObjectSymbol { address, is_text, name: name.map(|n| n.to_string()) }
}

#[test]
fn object_map_lists_named_text_symbols_then_exports() {
    let symbols = vec![
        sym(0x1_0000_1000, true, Some("main")),
        sym(0x1_0000_2000, false, Some("data")),
        sym(0x1_0000_3000, true, None),
        sym(0x1_0000_4000, true, Some("helper")),
    ];
    let exports = vec![
        ObjectExport { address: 0x1_0000_5000, name: Some("exported".to_string()) },
        ObjectExport { address: 0x1_0000_6000, name: None },
    ];
    let map = object_to_map(&symbols, 0x1_0000_0000, Some(&exports), 0x1_0000_0000);
    assert_eq!(
        map,
        vec![
            (0x1000, "main".to_string()),
            (0x4000, "helper".to_string()),
            (0x5000, "exported".to_string()),
        ]
    );
    let without_exports = object_to_map(&symbols, 0x1_0000_0000, None, 0);
    assert_eq!(without_exports, vec![(0x1000, "main".to_string()), (0x4000, "helper".to_string())]);
}

#[test]
fn object_map_addresses_truncate_to_32_bits() {
    let symbols = vec![sym(0x2_0000_0010, true, Some("far"))];
    let map = object_to_map(&symbols, 0, None, 0);
    assert_eq!(map, vec![(0x10, "far".to_string())]);
}

fn offsets(list: &[(u32, u32)]) -> Vec<AddressWithOffset> {
    list.iter()
        .map(|&(a, o)| AddressWithOffset { original_relative_address: a, offset_from_function_start: o })
        .collect()
}

#[test]
fn translated_addresses_are_placed_at_their_symbols_and_sorted() {
    let mut functions = FunctionsWithAddresses::new();
    functions.insert(b"late", offsets(&[(0x500, 0x8), (0x504, 0x0)]));
    functions.insert(b"early", offsets(&[(0x100, 0x4)]));
    functions.insert(b"absent", offsets(&[(0x900, 0x0)]));
    let symbols = vec![
        sym(0x3000, true, Some("late")),
        sym(0x1000, true, Some("early")),
        sym(0x2000, true, Some("late")),
        sym(0x4000, true, None),
    ];
    let pairs = translate_addresses_to_object(&symbols, functions);
    let got: Vec<(u32, u64)> = pairs.iter().map(|p| (p.original_relative_address, p.vmaddr_in_this_object)).collect();
    // "late" is taken by its first symbol only; "absent" has no symbol.
    assert_eq!(got, vec![(0x100, 0x1004), (0x504, 0x3000), (0x500, 0x3008)]);
}

#[test]
fn translated_addresses_at_one_place_keep_their_order() {
    let mut functions = FunctionsWithAddresses::new();
    functions.insert(b"f", offsets(&[(7, 0x10), (3, 0x10), (5, 0x0)]));
    let pairs = translate_addresses_to_object(&[sym(0x100, true, Some("f"))], functions);
    let got: Vec<(u32, u64)> = pairs.iter().map(|p| (p.original_relative_address, p.vmaddr_in_this_object)).collect();
    assert_eq!(got, vec![(5, 0x100), (7, 0x110), (3, 0x110)]);
}
