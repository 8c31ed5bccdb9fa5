use samply_core::looked_up_addresses::LookedUpAddresses;
use samply_core::symbols::symbolication_result_for_addresses;

#[test]
fn each_address_gets_the_closest_symbol_below_it() {
    let symbols = vec![
        (0x300, "c".to_string()),
        (0x100, "a".to_string()),
        (0x200, "b1".to_string()),
        (0x200, "b2".to_string()),
    ];
    let r: LookedUpAddresses = symbolication_result_for_addresses(&[0x50, 0x100, 0x250, 0x400], symbols);
    assert_eq!(r.symbol_count, 3);
    let symbol = |a: u32| {
        let s = r.address_results[&a].as_ref().unwrap();
        (s.symbol_address, s.symbol_name.clone())
    };
    assert_eq!(symbol(0x50), (0x50, "<before first symbol>".to_string()));
    assert_eq!(symbol(0x100), (0x100, "a".to_string()));
    assert_eq!(symbol(0x250), (0x200, "b2".to_string()));
    assert_eq!(symbol(0x400), (0x300, "c".to_string()));
}
