use samply_core::symbolicate::v6::lookups_answer_request;
use samply_core::error::GetSymbolsError;
use samply_core::looked_up_addresses::LookedUpAddresses;
use samply_core::shared::{AddressDebugInfo, InlineStackFrame, SymbolicationResult};
use samply_core::symbolicate::v6::{create_response, gather_requested_addresses};
use samply_core::v5::request_json::{Job, Lib, Request, Stack, StackFrame};

fn lib(name: &str, id: &str) -> Lib {
    Lib { debug_name: name.to_string(), breakpad_id: id.to_string() }
}

fn frame(module_index: u32, address: u32) -> StackFrame {
    StackFrame { module_index, address }
}

fn two_job_request() -> Request {
    Request::WithJobsList {
        jobs: vec![
            Job {
                memory_map: vec![lib("xul.pdb", "AAAA"), lib("ntdll.pdb", "BBBB")],
                stacks: vec![
                    Stack(vec![frame(0, 0x100), frame(1, 0x20)]),
                    Stack(vec![frame(0, 0x100), frame(0, 0x180)]),
                ],
            },
            Job {
                memory_map: vec![lib("ntdll.pdb", "BBBB"), lib("other.pdb", "CCCC")],
                stacks: vec![Stack(vec![frame(0, 0x30)])],
            },
        ],
    }
}

fn sorted(mut v: Vec<u32>) -> Vec<u32> {
    v.sort();
    v
}

#[test]
fn gathers_addresses_per_library_across_jobs() {
    let request = two_job_request();
    let groups = gather_requested_addresses(&request).ok().unwrap();
    assert_eq!(groups.len(), 2);
    let xul = groups.iter().find(|(l, _)| l.debug_name == "xul.pdb").unwrap();
    assert_eq!(sorted(xul.1.clone()), vec![0x100, 0x100, 0x180]);
    let ntdll = groups.iter().find(|(l, _)| l.debug_name == "ntdll.pdb").unwrap();
    assert_eq!(sorted(ntdll.1.clone()), vec![0x20, 0x30]);
    // A library that no frame falls in is not asked about.
    assert!(groups.iter().all(|(l, _)| l.debug_name != "other.pdb"));
}

#[test]
fn module_index_beyond_memory_map_is_rejected() {
    let request = Request::JustOneJob(Job {
        memory_map: vec![lib("xul.pdb", "AAAA")],
        stacks: vec![Stack(vec![frame(0, 1), frame(1, 2)])],
    });
    match gather_requested_addresses(&request) {
        Err(e) => {
            assert_eq!(e.enum_as_string(), "ParseRequestErrorContents");
            assert_eq!(e.to_string(), "Malformed request JSON: Stack frame module index beyond the memoryMap");
        }
        Ok(_) => panic!("expected an error"),
    }
}

#[test]
fn response_reports_symbols_and_module_status() {
    let request = Request::JustOneJob(Job {
        memory_map: vec![lib("xul.pdb", "AAAA"), lib("ntdll.pdb", "BBBB"), lib("none.pdb", "CCCC")],
        stacks: vec![Stack(vec![frame(0, 0x110), frame(1, 0x20), frame(2, 0x5), frame(0, 0x200)])],
    });

    let mut xul = LookedUpAddresses::for_addresses(&[0x110, 0x200]);
    xul.set_total_symbol_count(42);
    xul.add_address_symbol(0x110, 0x100, "foo");
    xul.add_address_symbol(0x200, 0x200, "bar");
    xul.add_address_debug_info(
        0x110,
        AddressDebugInfo {
            frames: vec![
                InlineStackFrame { function: Some("inlined".to_string()), file_path: Some("a.rs".to_string()), line_number: Some(3) },
                InlineStackFrame { function: Some("outer".to_string()), file_path: None, line_number: None },
            ],
        },
    );
    let looked_up = vec![
        (lib("xul.pdb", "AAAA"), Ok(xul)),
        (lib("ntdll.pdb", "BBBB"), Err(GetSymbolsError::NoCandidatePathForBinary("ntdll.pdb".to_string(), "BBBB".to_string()))),
    ];

    let response = create_response(&request, looked_up);
    assert_eq!(response.results.len(), 1);
    let result = &response.results[0];

    let status = &result.module_status;
    assert_eq!(status.len(), 3);
    let xul_status = status[0].as_ref().unwrap();
    assert!(xul_status.found);
    assert_eq!(xul_status.symbol_count, 42);
    assert!(xul_status.errors.is_empty());
    let ntdll_status = status[1].as_ref().unwrap();
    assert!(!ntdll_status.found);
    assert_eq!(ntdll_status.symbol_count, 0);
    assert_eq!(ntdll_status.errors.len(), 1);
    assert_eq!(ntdll_status.errors[0].name, "NoCandidatePathForBinary");
    assert_eq!(ntdll_status.errors[0].message, "No candidate path for binary, for ntdll.pdb BBBB");
    assert!(status[2].is_none());

    let frames = &result.stacks[0].0;
    assert_eq!(frames.len(), 4);
    assert_eq!(frames[0].frame, 0);
    assert_eq!(frames[0].module_offset, 0x110);
    assert_eq!(frames[0].module, "xul.pdb");
    let symbol = frames[0].symbol.as_ref().unwrap();
    // The outermost inline frame names the function.
    assert_eq!(symbol.function, "outer");
    assert_eq!(symbol.function_offset, 0x10);
    let inline_stack = &symbol.debug_info.as_ref().unwrap().inline_stack;
    assert_eq!(inline_stack.len(), 2);
    assert_eq!(inline_stack[0].function_name.as_deref(), Some("inlined"));
    assert_eq!(inline_stack[0].file_path.as_deref(), Some("a.rs"));
    assert_eq!(inline_stack[0].line_number, Some(3));

    assert_eq!(frames[1].module, "ntdll.pdb");
    assert!(frames[1].symbol.is_none());
    assert_eq!(frames[2].module, "none.pdb");
    assert!(frames[2].symbol.is_none());
    assert_eq!(frames[3].frame, 3);
    let bar = frames[3].symbol.as_ref().unwrap();
    assert_eq!(bar.function, "bar");
    assert_eq!(bar.function_offset, 0);
    assert!(bar.debug_info.is_none());
}

#[test]
fn lookups_must_cover_the_request() {
    let request = Request::JustOneJob(Job {
        memory_map: vec![lib("xul.pdb", "AAAA")],
        stacks: vec![Stack(vec![frame(0, 0x10)])],
    });
    let covered = vec![(lib("xul.pdb", "AAAA"), Ok(LookedUpAddresses::for_addresses(&[0x10])))];
    assert!(lookups_answer_request(&request, &covered));
    let missing = vec![(lib("xul.pdb", "AAAA"), Ok(LookedUpAddresses::for_addresses(&[0x20])))];
    assert!(!lookups_answer_request(&request, &missing));
    let mut above = LookedUpAddresses::for_addresses(&[0x10]);
    above.add_address_symbol(0x10, 0x11, "f");
    assert!(!lookups_answer_request(&request, &vec![(lib("xul.pdb", "AAAA"), Ok(above))]));
    let twice = vec![
        (lib("xul.pdb", "AAAA"), Ok(LookedUpAddresses::for_addresses(&[0x10]))),
        (lib("xul.pdb", "AAAA"), Err(GetSymbolsError::InvalidInputError("x"))),
    ];
    assert!(!lookups_answer_request(&request, &twice));
    let bad_index = Request::JustOneJob(Job { memory_map: vec![], stacks: vec![Stack(vec![frame(0, 0x10)])] });
    assert!(!lookups_answer_request(&bad_index, &vec![]));
    // A library whose lookup failed needs no addresses.
    let failed = vec![(lib("xul.pdb", "AAAA"), Err(GetSymbolsError::InvalidInputError("x")))];
    assert!(lookups_answer_request(&request, &failed));
}
