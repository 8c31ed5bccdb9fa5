use samply_core::api::asm_request::{parse_prefixed_hex_u32, HexFieldError, Request as AsmRequest};
use samply_core::api::request_json::{HexString, Job, Lib, Request, RequestFrame, RequestStack, ValidDebugName};
use samply_core::source::Request as SourceRequest;

fn lib(name: &str, id: &str) -> Lib {
    Lib::from_strings(name.to_string(), id.to_string()).unwrap()
}

fn example_job() -> Job {
    Job {
        memory_map: vec![
            lib("xul.pdb", "44E4EC8C2F41492B9369D6B9A059577C2"),
            lib("wntdll.pdb", "D74F79EB1F8D4A45ABCD2F476CCABACC2"),
        ],
        stacks: vec![RequestStack(vec![
            RequestFrame { module_index: 0, address: 11723767 },
            RequestFrame { module_index: 1, address: 65802 },
        ])],
    }
}

#[test]
fn valid_debug_filename_chars() {
    // All allowed characters
    let lib = Lib::from_strings("xul.pdb".to_string(), "44E4EC8C".to_string()).unwrap();
    assert_eq!(lib.debug_name.as_str(), "xul.pdb");

    // Spaces, tildes, braces, brackets, etc.
    let lib = Lib::from_strings("lib foo+bar{v2}@<arch> ~test-1".to_string(), "AABB".to_string()).unwrap();
    assert_eq!(lib.debug_name.as_str(), "lib foo+bar{v2}@<arch> ~test-1");

    // Square brackets — used for kallsyms / kernel module debug names
    let lib = Lib::from_strings("[kernel.kallsyms]".to_string(), "".to_string()).unwrap();
    assert_eq!(lib.debug_name.as_str(), "[kernel.kallsyms]");

    // Empty string is allowed
    let lib = Lib::from_strings("".to_string(), "".to_string()).unwrap();
    assert_eq!(lib.debug_name.as_str(), "");
}

#[test]
fn invalid_debug_filename_rejected() {
    // Slash is not allowed
    assert!(Lib::from_strings("xul/pdb".to_string(), "44E4EC8C".to_string()).is_err());
    // Backslash is not allowed
    assert!(Lib::from_strings("xul\\pdb".to_string(), "44E4EC8C".to_string()).is_err());
    // Exclamation mark is not allowed
    assert!(Lib::from_strings("xul!pdb".to_string(), "44E4EC8C".to_string()).is_err());
}

#[test]
fn invalid_debug_id_rejected() {
    // Non-hex character
    assert!(Lib::from_strings("xul.pdb".to_string(), "44E4EC8C2F41492B9369D6B9A059577G".to_string()).is_err());
    // Hyphen not allowed in debug_id (only in debug_filename)
    assert!(Lib::from_strings("xul.pdb".to_string(), "44E4EC8C-2F41".to_string()).is_err());
}

#[test]
fn rejection_messages_quote_the_input() {
    let e = Lib::from_strings("xul/pdb".to_string(), "44E4EC8C".to_string()).err().unwrap();
    assert_eq!(e, "invalid debug_filename \"xul/pdb\"");
    let e = Lib::from_strings("xul.pdb".to_string(), "44-4".to_string()).err().unwrap();
    assert_eq!(e, "invalid debug_id \"44-4\"");
    // The debug name is checked first.
    let e = Lib::from_strings("a!b".to_string(), "zz".to_string()).err().unwrap();
    assert_eq!(e, "invalid debug_filename \"a!b\"");
    let e = ValidDebugName::new("a\"b".to_string()).err().unwrap();
    assert_eq!(e, "invalid debug_filename \"a\\\"b\"");
    assert!(HexString::new("0123456789abcdefABCDEF".to_string()).is_ok());
}

#[test]
fn request_json_parse_job() {
    let r = Request::WithJobsList { jobs: vec![example_job()] };
    assert_eq!(r.jobs().count(), 1);
}

#[test]
fn request_json_parse_without_jobs_wrapper() {
    let r = Request::JustOneJob(example_job());
    assert_eq!(r.jobs().count(), 1);
}

#[test]
fn job_iterator_hands_out_jobs_in_order() {
    let r = Request::WithJobsList { jobs: vec![example_job(), Job { memory_map: vec![], stacks: vec![] }] };
    let mut it = r.jobs();
    assert_eq!(it.next().unwrap().memory_map.len(), 2);
    assert_eq!(it.next().unwrap().memory_map.len(), 0);
    assert!(it.next().is_none());
    assert!(it.next().is_none());
    let single = Request::JustOneJob(example_job());
    let mut it = single.jobs();
    assert!(it.next().is_some());
    assert!(it.next().is_none());
    assert_eq!(it.count(), 0);
}

#[test]
fn asm_request_json_parse_job() {
    let r = AsmRequest {
        name: None,
        code_id: None,
        debug_name: Some("xul.pdb".to_string()),
        debug_id: Some("A14CAFD390A3E1884C4C44205044422E1".to_string()),
        start_address: parse_prefixed_hex_u32("0x1d04742").ok().unwrap(),
        size: parse_prefixed_hex_u32("0x84").ok().unwrap(),
        continue_until_function_end: false,
    };
    assert_eq!(r.start_address, 30426946);
    assert_eq!(r.size, 0x84);
    assert_eq!(r.debug_id, Some("A14CAFD390A3E1884C4C44205044422E1".into()));
    assert!(!r.continue_until_function_end);
}

#[test]
fn source_request_json_parse_job() {
    let r = SourceRequest {
        debug_name: "xul.pdb".to_string(),
        debug_id: "A14CAFD390A3E1884C4C44205044422E1".to_string(),
        module_offset: parse_prefixed_hex_u32("0x1d04742").ok().unwrap(),
        file: "/builds/worker/workspace/obj-build/x86_64-pc-windows-msvc/release/build/cssparser-066ad33a2406b35b/out/tokenizer.rs".to_string(),
    };
    assert_eq!(r.module_offset, 30426946);
}

#[test]
fn prefixed_hex_errors() {
    match parse_prefixed_hex_u32("1d04742") {
        Err(HexFieldError::MissingPrefix(m)) => {
            assert_eq!(m, "Unexpected hex string 1d04742 without 0x prefix.")
        }
        _ => panic!("expected a missing prefix"),
    }
    assert!(matches!(parse_prefixed_hex_u32("0x"), Err(HexFieldError::InvalidNumber)));
    assert!(matches!(parse_prefixed_hex_u32("0xg1"), Err(HexFieldError::InvalidNumber)));
    assert!(matches!(parse_prefixed_hex_u32("0x100000000"), Err(HexFieldError::InvalidNumber)));
    assert_eq!(parse_prefixed_hex_u32("0xffffffff").ok(), Some(0xffff_ffff));
    assert_eq!(parse_prefixed_hex_u32("0xABcd").ok(), Some(0xabcd));
}
