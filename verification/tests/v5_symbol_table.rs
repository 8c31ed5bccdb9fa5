use samply_core::v5::symbol_table::SymbolTable;
use std::collections::HashMap;

#[test]
fn looks_up_the_closest_symbol_at_or_below() {
    let mut map = HashMap::new();
    map.insert(0x1000u32, "first".to_string());
    map.insert(0x2000u32, "second".to_string());
    map.insert(0x3000u32, "third".to_string());
    let table = SymbolTable::from_map(map);
    let results = table.look_up_addresses(vec![0x2500, 0x10, 0x1000, 0x3fff, 0x2500]);
    assert_eq!(results.len(), 4);
    assert_eq!(results[&0x2500].symbol_name, "second");
    assert_eq!(results[&0x2500].symbol_address, 0x2000);
    assert_eq!(results[&0x1000].symbol_name, "first");
    assert_eq!(results[&0x1000].symbol_address, 0x1000);
    assert_eq!(results[&0x3fff].symbol_name, "third");
    assert_eq!(results[&0x10].symbol_name, "<before first symbol>");
    assert_eq!(results[&0x10].symbol_address, 0x10);
}

#[test]
fn empty_table_puts_everything_before_the_first_symbol() {
    let table = SymbolTable::from_map(HashMap::new());
    let results = table.look_up_addresses(vec![7]);
    assert_eq!(results[&7].symbol_name, "<before first symbol>");
    assert_eq!(results[&7].symbol_address, 7);
    assert!(table.look_up_addresses(vec![]).is_empty());
}
