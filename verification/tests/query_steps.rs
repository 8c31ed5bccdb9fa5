use samply_core::api::asm_request::{
    asm_after_binary, asm_after_function_end, asm_query_start, AsmPhase, Request,
    asm_arch, disassembly_len, AsmError, format_branch_symbol, function_end_address, instruction_start, AsmArch,
};
use samply_core::source::{
    source_after_external_file, source_after_source_file, source_after_symbol_map, source_file_for_request,
    FrameSourceFile, FramesLookup, SourceError, SourcePhase,
};

#[test]
fn asm_arch_names() {
    assert!(matches!(asm_arch(Some("x86")), Ok(AsmArch::X86)));
    assert!(matches!(asm_arch(Some("x86_64h")), Ok(AsmArch::X86_64)));
    assert!(matches!(asm_arch(Some("arm64e")), Ok(AsmArch::Arm64)));
    assert!(matches!(asm_arch(Some("arm")), Ok(AsmArch::Arm)));
    assert!(matches!(asm_arch(Some("mips")), Err(AsmError::UnrecognizedArch(a)) if a == "mips"));
    assert!(matches!(asm_arch(None), Err(AsmError::UnrecognizedArch(a)) if a == "unknown"));
}

#[test]
fn arm_start_addresses_are_aligned_down() {
    assert_eq!(instruction_start(Some("arm64"), 0x1007), 0x1004);
    assert_eq!(instruction_start(Some("arm"), 0x1007), 0x1006);
    assert_eq!(instruction_start(Some("x86_64"), 0x1007), 0x1007);
    assert_eq!(instruction_start(None, 0x1007), 0x1007);
}

#[test]
fn disassembly_reaches_the_function_end() {
    assert_eq!(function_end_address(0x1000, Some(0x80)), Some(0x1080));
    assert_eq!(function_end_address(0x1000, None), None);
    assert_eq!(function_end_address(u32::MAX, Some(1)), None);
    assert_eq!(disassembly_len(0x1010, 0x10, Some(0x1080)), 0x70);
    assert_eq!(disassembly_len(0x1010, 0x100, Some(0x1080)), 0x100);
    assert_eq!(disassembly_len(0x1010, 0x10, Some(0x1000)), 0x10);
    assert_eq!(disassembly_len(0x1010, 0x10, None), 0x10);
}

#[test]
fn branch_targets_are_labelled_by_symbol() {
    assert_eq!(format_branch_symbol(0x1000, Some(("main", 0x1000))), Some("<main>".to_string()));
    assert_eq!(format_branch_symbol(0x102a, Some(("main", 0x1000))), Some("<main+0x2a>".to_string()));
    assert_eq!(format_branch_symbol(0x102a, None), None);
}

fn frame_file(api: &str, raw: &str) -> FrameSourceFile {
    FrameSourceFile { api_path: api.to_string(), raw_path: raw.to_string() }
}

#[test]
fn source_request_picks_the_first_matching_frame_file() {
    let files = vec![
        frame_file("src/a.rs", "/build/src/a.rs"),
        frame_file("src/b.rs", "/build/src/b.rs"),
        frame_file("src/b.rs", "/other/src/b.rs"),
    ];
    assert!(matches!(source_file_for_request("src/b.rs", Some(&files)), Ok(1)));
    assert_eq!(files[1].raw_path, "/build/src/b.rs");
    assert!(matches!(source_file_for_request("src/c.rs", Some(&files)), Err(SourceError::InvalidPath)));
    assert!(matches!(source_file_for_request("src/a.rs", None), Err(SourceError::NoDebugInfo)));
}

#[test]
fn asm_and_source_errors_have_the_api_messages() {
    assert_eq!(AsmError::UnrecognizedArch("mips".to_string()).message(), "Unrecognized architecture \"mips\"");
    assert_eq!(
        AsmError::AddressNotFound.message(),
        "The requested address was not found in any section in the binary."
    );
    assert_eq!(AsmError::FileIO("eof".to_string()).message(), "Could not read the requested address range from the file: eof");
    assert_eq!(SourceError::NoDebugInfo.message(), "Don't have any debug info for the requested library");
    assert_eq!(
        SourceError::NoSymbols("missing".to_string()).message(),
        "Could not obtain symbols for the requested library: missing"
    );
}

fn asm_request(continue_until_function_end: bool) -> Request {
    Request {
        name: None,
        code_id: None,
        debug_name: Some("libc.so".to_string()),
        debug_id: None,
        start_address: 0x1013,
        size: 0x20,
        continue_until_function_end,
    }
}

#[test]
fn asm_query_waits_for_the_binary_first() {
    assert!(matches!(
        asm_query_start(&asm_request(true)),
        AsmPhase::AwaitingBinary { start_address: 0x1013, size: 0x20, continue_until_function_end: true }
    ));
}

#[test]
fn asm_query_after_the_binary() {
    match asm_after_binary(0x1013, 0x20, false, Ok(Some("arm64"))) {
        AsmPhase::Decoding { rel_address, len, arch } => {
            assert_eq!((rel_address, len), (0x1010, 0x20));
            assert_eq!(arch.as_deref(), Some("arm64"));
        }
        _ => panic!("expected decoding"),
    }
    assert!(matches!(
        asm_after_binary(0x1013, 0x20, true, Ok(Some("x86_64"))),
        AsmPhase::AwaitingFunctionEnd { start_address: 0x1013, size: 0x20 }
    ));
    match asm_after_binary(0x1013, 0x20, false, Err("no such file".to_string())) {
        AsmPhase::Failed(e) => assert_eq!(e.message(), "An error occurred when loading the binary: no such file"),
        _ => panic!("expected a failure"),
    }
}

#[test]
fn asm_query_after_the_function_end() {
    match asm_after_function_end(0x1013, 0x20, Some((0x1000, Some(0x100))), Some("x86_64")) {
        AsmPhase::Decoding { rel_address, len, arch } => {
            assert_eq!((rel_address, len), (0x1013, 0xed));
            assert_eq!(arch.as_deref(), Some("x86_64"));
        }
        _ => panic!("expected decoding"),
    }
    match asm_after_function_end(0x1013, 0x20, Some((0x1000, None)), None) {
        AsmPhase::Decoding { rel_address, len, arch } => {
            assert_eq!((rel_address, len, arch), (0x1013, 0x20, None));
        }
        _ => panic!("expected decoding"),
    }
    match asm_after_function_end(0x1013, 0x20, None, Some("arm")) {
        AsmPhase::Decoding { rel_address, len, .. } => assert_eq!((rel_address, len), (0x1012, 0x20)),
        _ => panic!("expected decoding"),
    }
}

#[test]
fn source_query_after_the_symbol_map() {
    let files = vec![frame_file("src/a.rs", "/build/src/a.rs"), frame_file("src/b.rs", "/build/src/b.rs")];
    match source_after_symbol_map("src/b.rs".to_string(), Ok(FramesLookup::Available(files))) {
        SourcePhase::AwaitingSourceFile { requested_file, raw_path } => {
            assert_eq!(requested_file, "src/b.rs");
            assert_eq!(raw_path, "/build/src/b.rs");
        }
        _ => panic!("expected to read the source file"),
    }
    let files = vec![frame_file("src/a.rs", "/build/src/a.rs")];
    assert!(matches!(
        source_after_symbol_map("src/c.rs".to_string(), Ok(FramesLookup::Available(files))),
        SourcePhase::Failed(SourceError::InvalidPath)
    ));
    assert!(matches!(
        source_after_symbol_map("src/c.rs".to_string(), Ok(FramesLookup::External)),
        SourcePhase::AwaitingExternalFile
    ));
    assert!(matches!(
        source_after_symbol_map("src/c.rs".to_string(), Ok(FramesLookup::Missing)),
        SourcePhase::Failed(SourceError::NoDebugInfo)
    ));
    match source_after_symbol_map("src/c.rs".to_string(), Err("not found".to_string())) {
        SourcePhase::Failed(e) => {
            assert_eq!(e.message(), "Could not obtain symbols for the requested library: not found")
        }
        _ => panic!("expected a failure"),
    }
}

#[test]
fn source_query_after_external_and_source_files() {
    assert!(matches!(
        source_after_external_file("src/a.rs".to_string(), FramesLookup::Missing),
        SourcePhase::Failed(SourceError::NoDebugInfo)
    ));
    assert!(matches!(
        source_after_external_file("src/a.rs".to_string(), FramesLookup::External),
        SourcePhase::AwaitingExternalFile
    ));
    let files = vec![frame_file("src/a.rs", "/obj/src/a.rs")];
    assert!(matches!(
        source_after_external_file("src/a.rs".to_string(), FramesLookup::Available(files)),
        SourcePhase::AwaitingSourceFile { .. }
    ));
    match source_after_source_file("src/a.rs".to_string(), Ok("fn main() {}".to_string())) {
        SourcePhase::Answered { file, source } => {
            assert_eq!(file, "src/a.rs");
            assert_eq!(source, "fn main() {}");
        }
        _ => panic!("expected an answer"),
    }
    assert!(matches!(
        source_after_source_file("src/a.rs".to_string(), Err("gone".to_string())),
        SourcePhase::Failed(SourceError::NoSymbols(_))
    ));
}
