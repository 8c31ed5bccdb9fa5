use samply_core::api::request_json::{Job, Lib, Request, RequestFrame, RequestStack};
use samply_core::api::symbolicate::{gather_requested_addresses, request_counts, LibError, SymbolicateQuery, SymbolicateStep};
use samply_core::api::{Error, ModuleLoadOutcome};

fn lib(name: &str, id: &str) -> Lib {
    Lib::from_strings(name.to_string(), id.to_string()).unwrap()
}

fn frame(module_index: u32, address: u32) -> RequestFrame {
    RequestFrame { module_index, address }
}

fn example_request() -> Request {
    Request::WithJobsList {
        jobs: vec![
            Job {
                memory_map: vec![
                    lib("xul.pdb", "44E4EC8C2F41492B9369D6B9A059577C2"),
                    lib("bad.pdb", "AABB"),
                    lib("wntdll.pdb", "D74F79EB1F8D4A45ABCD2F476CCABACC2"),
                ],
                stacks: vec![
                    RequestStack(vec![frame(0, 11723767), frame(1, 0x10), frame(2, 65802)]),
                    RequestStack(vec![frame(0, 0x20)]),
                ],
            },
            Job {
                memory_map: vec![lib("xul.pdb", "44E4EC8C2F41492B9369D6B9A059577C2")],
                stacks: vec![RequestStack(vec![frame(0, 0x30)]), RequestStack(vec![])],
            },
        ],
    }
}

#[test]
fn requested_addresses_are_grouped_by_library() {
    let entries = gather_requested_addresses(&example_request()).ok().unwrap();
    let summary: Vec<(String, Vec<u32>)> =
        entries.iter().map(|(l, a)| (l.debug_name.as_str().to_string(), a.clone())).collect();
    assert_eq!(
        summary,
        vec![
            ("xul.pdb".to_string(), vec![11723767, 0x20, 0x30]),
            ("bad.pdb".to_string(), vec![0x10]),
            ("wntdll.pdb".to_string(), vec![65802]),
        ]
    );
}

#[test]
fn module_index_beyond_the_memory_map_is_an_error() {
    let request = Request::JustOneJob(Job {
        memory_map: vec![lib("xul.pdb", "44E4EC8C2F41492B9369D6B9A059577C2")],
        stacks: vec![RequestStack(vec![frame(0, 1), frame(1, 2)])],
    });
    match gather_requested_addresses(&request) {
        Err(Error::ParseRequestErrorContents(m)) => assert_eq!(m, "Stack frame module index beyond the memoryMap"),
        _ => panic!("expected an error"),
    }
    assert!(SymbolicateQuery::<u32, String>::new(&request).is_err());
}

#[test]
fn request_counts_jobs_stacks_and_frames() {
    assert_eq!(request_counts(&example_request()), (2, 4, 5));
}

#[test]
fn query_asks_for_each_valid_library_and_records_stats() {
    let mut q = SymbolicateQuery::<u32, String>::new(&example_request()).ok().unwrap();
    match q.poll() {
        SymbolicateStep::NeedSymbolMap { debug_name, debug_id } => {
            assert_eq!(debug_name, "xul.pdb");
            assert_eq!(debug_id.breakpad().to_string(), "44E4EC8C2F41492B9369D6B9A059577C2");
        }
        SymbolicateStep::Done => panic!("expected a symbol map request"),
    }
    q.provide_symbol_map(Ok(7));
    // "bad.pdb" has an invalid breakpad ID and is passed over.
    match q.poll() {
        SymbolicateStep::NeedSymbolMap { debug_name, .. } => assert_eq!(debug_name, "wntdll.pdb"),
        SymbolicateStep::Done => panic!("expected a symbol map request"),
    }
    q.provide_symbol_map(Err(("no such file".to_string(), "HelperErrorDuringOpenFile")));
    assert!(matches!(q.poll(), SymbolicateStep::Done));
    let (results, stats) = q.finish();
    assert_eq!(results.len(), 3);
    assert!(matches!(results[0].2, Ok(7)));
    assert!(matches!(&results[1].2, Err(LibError::InvalidBreakpadId(e)) if e.0 == "AABB"));
    assert!(matches!(&results[2].2, Err(LibError::Symbols(e)) if e == "no such file"));
    assert_eq!((stats.jobs_count, stats.stacks_count, stats.frames_count), (2, 4, 5));
    assert_eq!(stats.module_stats.len(), 3);
    assert_eq!(stats.module_stats[0].debug_name, "xul.pdb");
    assert!(matches!(stats.module_stats[0].outcome, ModuleLoadOutcome::Loaded));
    assert_eq!(stats.module_stats[1].breakpad_id, "AABB");
    assert!(matches!(stats.module_stats[1].outcome, ModuleLoadOutcome::Failed { error_name: "InvalidBreakpadId" }));
    assert!(matches!(stats.module_stats[2].outcome, ModuleLoadOutcome::Failed { error_name: "HelperErrorDuringOpenFile" }));
}

#[test]
fn query_without_valid_libraries_is_done_at_once() {
    let request = Request::JustOneJob(Job {
        memory_map: vec![lib("zero.pdb", "000000000000000000000000000000000")],
        stacks: vec![RequestStack(vec![frame(0, 1)])],
    });
    let q = SymbolicateQuery::<u32, String>::new(&request).ok().unwrap();
    assert!(matches!(q.poll(), SymbolicateStep::Done));
    let (results, stats) = q.finish();
    assert_eq!(results.len(), 1);
    assert!(matches!(stats.module_stats[0].outcome, ModuleLoadOutcome::Failed { error_name: "InvalidBreakpadId" }));
}
