use samply_core::v5::request_json::{Job, Lib, Request, Stack, StackFrame};

fn example_job() -> Job {
    Job {
        memory_map: vec![
            Lib { debug_name: "xul.pdb".to_string(), breakpad_id: "44E4EC8C2F41492B9369D6B9A059577C2".to_string() },
            Lib { debug_name: "wntdll.pdb".to_string(), breakpad_id: "D74F79EB1F8D4A45ABCD2F476CCABACC2".to_string() },
        ],
        stacks: vec![Stack(vec![
            StackFrame { module_index: 0, address: 11723767 },
            StackFrame { module_index: 1, address: 65802 },
        ])],
    }
}

#[test]
fn mod_parse_job() {
    let r = Request::WithJobsList { jobs: vec![example_job()] };
    assert_eq!(r.jobs().count(), 1);
}

#[test]
fn mod_parse_without_jobs_wrapper() {
    let r = Request::JustOneJob(example_job());
    assert_eq!(r.jobs().count(), 1);
}

#[test]
fn v5_jobs_by_position() {
    let r = Request::WithJobsList { jobs: vec![example_job(), Job { memory_map: vec![], stacks: vec![] }] };
    assert_eq!(r.job_count(), 2);
    assert_eq!(r.job(0).memory_map[1].debug_name, "wntdll.pdb");
    assert_eq!(r.job(1).stacks.len(), 0);
    assert_eq!(Request::JustOneJob(example_job()).job_count(), 1);
}
