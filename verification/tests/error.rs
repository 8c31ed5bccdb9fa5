use samply_core::error::{join_strings, GetSymbolsError};

#[test]
fn error_names_and_messages() {
    let e = GetSymbolsError::UnmatchedBreakpadId("A".to_string(), "B".to_string());
    assert_eq!(e.enum_as_string(), "UnmatchedBreakpadId");
    assert_eq!(e.to_string(), "Unmatched breakpad_id: Expected A, but received B");

    let e = GetSymbolsError::NoMatchMultiArch(
        vec!["ID1".to_string(), "ID2".to_string()],
        vec!["first error".to_string(), "second error".to_string()],
    );
    assert_eq!(e.enum_as_string(), "NoMatchMultiArch");
    assert_eq!(
        e.to_string(),
        "No match in multi-arch binary, available UUIDs: ID1, ID2, errors: first error, second error"
    );

    let e = GetSymbolsError::PDBError("reading the TPI", "bad".to_string());
    assert_eq!(e.to_string(), "PDB error: bad (reading the TPI)");

    let e = GetSymbolsError::InvalidInputError("Missing mach-O UUID");
    assert_eq!(e.enum_as_string(), "InvalidInputError");
    assert_eq!(e.to_string(), "Invalid input: Missing mach-O UUID");

    let e = GetSymbolsError::ArchiveParseError("/a/b.a".to_string(), "oops".to_string());
    assert_eq!(
        e.to_string(),
        "Could not parse archive file at /a/b.a, ArchiveFile::parse returned error: oops."
    );

    let e = GetSymbolsError::NoLuckMacOsSystemLibrary(vec![]);
    assert_eq!(e.to_string(), "Couldn't get symbols from system library, errors: ");
}

#[test]
fn join_puts_the_separator_between_items() {
    assert_eq!(join_strings(&vec![], ", "), "");
    assert_eq!(join_strings(&vec!["a".to_string()], ", "), "a");
    assert_eq!(join_strings(&vec!["a".to_string(), "b".to_string(), "c".to_string()], "-"), "a-b-c");
}
