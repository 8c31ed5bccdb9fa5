use samply_core::error::GetSymbolsError;
use samply_core::symbol_query::{reader_for_file, CandidateSearch, FileKind, FileReader};

#[test]
fn readers_by_file_kind() {
    assert_eq!(reader_for_file(true, Some(FileKind::Elf64)).ok(), Some(FileReader::Pdb));
    assert_eq!(reader_for_file(false, Some(FileKind::Elf32)).ok(), Some(FileReader::Elf));
    assert_eq!(reader_for_file(false, Some(FileKind::MachOFat32)).ok(), Some(FileReader::MachOFat32));
    assert_eq!(reader_for_file(false, Some(FileKind::MachOFat64)).ok(), Some(FileReader::MachOFat64));
    assert_eq!(reader_for_file(false, Some(FileKind::MachO64)).ok(), Some(FileReader::MachO));
    assert_eq!(reader_for_file(false, Some(FileKind::Pe32)).ok(), Some(FileReader::Pe));
    let e = reader_for_file(false, Some(FileKind::Other)).err().unwrap();
    assert_eq!(e.to_string(), "Invalid input: Input was Archive, Coff or Wasm format, which are unsupported for now");
    let e = reader_for_file(false, None).err().unwrap();
    assert_eq!(e.enum_as_string(), "InvalidInputError");
}

#[test]
fn the_first_success_ends_the_search() {
    let mut search = CandidateSearch::new();
    assert_eq!(search.record_result::<u32>(Err(GetSymbolsError::InvalidInputError("first"))), None);
    assert_eq!(search.record_result(Ok(7u32)), Some(7));
}

#[test]
fn the_last_error_is_reported() {
    let mut search = CandidateSearch::new();
    assert_eq!(search.record_result::<u32>(Err(GetSymbolsError::InvalidInputError("first"))), None);
    assert_eq!(search.record_result::<u32>(Err(GetSymbolsError::DyldCacheParseError("second".to_string()))), None);
    let e = search.finish("xul.pdb", "AAAA");
    assert_eq!(e.to_string(), "Dyld cache parsing error: second");
    let none = CandidateSearch::new().finish("xul.pdb", "AAAA");
    assert_eq!(none.to_string(), "No candidate path for binary, for xul.pdb AAAA");
}
