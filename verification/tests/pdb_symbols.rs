use samply_core::error::GetSymbolsError;
use samply_core::looked_up_addresses::LookedUpAddresses;
use samply_core::shared::FileLocation;
use samply_core::windows::pdb_symbols::{
    check_pdb_id, check_pe_id, pdb_breakpad_id, pdb_candidates_to_try, pdb_symbol_map, pdb_symbols_for_addresses,
    pe_breakpad_id, PdbProcedure,
};
use uuid::Uuid;

fn guid() -> Uuid {
    Uuid::from_bytes([
        0x1e, 0x2a, 0x3b, 0x4c, 0x5d, 0x6e, 0x7f, 0x80, 0x91, 0xa2, 0xb3, 0xc4, 0xd5, 0xe6, 0xf7, 0x08,
    ])
}

#[test]
fn pdb_id_is_upper_guid_then_lower_age() {
    assert_eq!(pdb_breakpad_id(&guid(), 0x1a), "1E2A3B4C5D6E7F8091A2B3C4D5E6F7081a");
    assert_eq!(pdb_breakpad_id(&guid(), 1), "1E2A3B4C5D6E7F8091A2B3C4D5E6F7081");
    assert_eq!(pdb_breakpad_id(&Uuid::nil(), 0), "000000000000000000000000000000000");
}

#[test]
fn pdb_id_check() {
    assert!(check_pdb_id(&guid(), 2, "1E2A3B4C5D6E7F8091A2B3C4D5E6F7082").is_ok());
    match check_pdb_id(&guid(), 2, "1E2A3B4C5D6E7F8091A2B3C4D5E6F7083") {
        Err(GetSymbolsError::UnmatchedBreakpadId(found, asked)) => {
            assert_eq!(found, "1E2A3B4C5D6E7F8091A2B3C4D5E6F7082");
            assert_eq!(asked, "1E2A3B4C5D6E7F8091A2B3C4D5E6F7083");
        }
        _ => panic!("expected UnmatchedBreakpadId"),
    }
}

fn entry(a: u32, n: &str) -> (u32, String) {
    (a, n.to_string())
}

#[test]
fn symbol_map_prefers_publics_then_first_procedure() {
    let publics = vec![entry(0x30, "pub_a"), entry(0x10, "pub_b"), entry(0x30, "pub_c")];
    let procedures = vec![entry(0x30, "proc_a"), entry(0x20, "proc_b"), entry(0x20, "proc_c"), entry(0x5, "proc_d")];
    let map = pdb_symbol_map(&publics, &procedures);
    assert_eq!(
        map,
        vec![entry(0x5, "proc_d"), entry(0x10, "pub_b"), entry(0x20, "proc_b"), entry(0x30, "pub_c")]
    );
}

#[test]
fn procedures_give_symbols_to_covered_addresses() {
    let publics = vec![entry(0x100, "public_only"), entry(0x200, "pub_main")];
    let procedures = vec![
        PdbProcedure { rva: 0x200, len: 0x40, name: "main".to_string() },
        PdbProcedure { rva: 0x300, len: 0x10, name: "helper".to_string() },
        PdbProcedure { rva: 0x208, len: 0x8, name: "inner".to_string() },
    ];
    let addresses = [0x100, 0x204, 0x20a, 0x23f, 0x240, 0x305];
    let r: LookedUpAddresses = pdb_symbols_for_addresses(&publics, &procedures, &addresses);
    assert_eq!(r.symbol_count, 4);
    let symbol = |a: u32| r.address_results[&a].as_ref().map(|s| (s.symbol_address, s.symbol_name.clone()));
    assert_eq!(symbol(0x100), None);
    assert_eq!(symbol(0x204), Some((0x200, "main".to_string())));
    assert_eq!(symbol(0x20a), Some((0x208, "inner".to_string())));
    assert_eq!(symbol(0x23f), Some((0x200, "main".to_string())));
    assert_eq!(symbol(0x240), None);
    assert_eq!(symbol(0x305), Some((0x300, "helper".to_string())));
}

#[test]
fn pe_id_turns_the_first_fields_big_endian() {
    let signature = [
        0x4c, 0x3b, 0x2a, 0x1e, 0x6e, 0x5d, 0x80, 0x7f, 0x91, 0xa2, 0xb3, 0xc4, 0xd5, 0xe6, 0xf7, 0x08,
    ];
    assert_eq!(pe_breakpad_id(&signature, 0x1a), "1E2A3B4C5D6E7F8091A2B3C4D5E6F7081a");
}

#[test]
fn pe_id_check_accepts_the_binarys_own_id() {
    let signature = [
        0x4c, 0x3b, 0x2a, 0x1e, 0x6e, 0x5d, 0x80, 0x7f, 0x91, 0xa2, 0xb3, 0xc4, 0xd5, 0xe6, 0xf7, 0x08,
    ];
    assert!(check_pe_id(&signature, 0x1a, "1E2A3B4C5D6E7F8091A2B3C4D5E6F7081a").is_ok());
}

#[test]
fn pe_id_check_names_both_ids_on_a_mismatch() {
    let signature = [
        0x4c, 0x3b, 0x2a, 0x1e, 0x6e, 0x5d, 0x80, 0x7f, 0x91, 0xa2, 0xb3, 0xc4, 0xd5, 0xe6, 0xf7, 0x08,
    ];
    match check_pe_id(&signature, 2, "1E2A3B4C5D6E7F8091A2B3C4D5E6F7081a") {
        Err(GetSymbolsError::UnmatchedBreakpadId(found, asked)) => {
            assert_eq!(found, "1E2A3B4C5D6E7F8091A2B3C4D5E6F7082");
            assert_eq!(asked, "1E2A3B4C5D6E7F8091A2B3C4D5E6F7081a");
        }
        _ => panic!("expected an unmatched breakpad id"),
    }
}

#[test]
fn pdb_candidates_skip_the_binarys_own_location() {
    let binary = FileLocation::Custom("app.exe".to_string());
    let candidates = vec![
        FileLocation::Custom("app.pdb".to_string()),
        FileLocation::Custom("app.exe".to_string()),
        FileLocation::Custom("symbols/app.pdb".to_string()),
    ];
    assert_eq!(pdb_candidates_to_try(&candidates, &binary), vec![0, 2]);
    assert_eq!(pdb_candidates_to_try(&[], &binary), Vec::<usize>::new());
}
