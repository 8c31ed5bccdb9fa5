use samply_core::pdb_info::addr2line::{
    find_frames_from_procedure, find_line_info_containing_address, procedure_containing, InlineSite, LineRecord,
    LineRecords, ProcedureItem, ProcedureSpan,
};

fn line(start_rva: u32, length: Option<u32>, line: u32) -> LineRecord {
    LineRecord { start_rva, length, file: Some(format!("file{}.cpp", line)), line, column: None }
}

fn records(lines: Vec<LineRecord>) -> LineRecords {
    LineRecords { lines, broken: false }
}

#[test]
fn line_lookup_uses_lengths_then_next_line_then_outer_end() {
    let r = records(vec![line(0x100, Some(0x10), 1), line(0x120, None, 2), line(0x140, None, 3)]);
    assert_eq!(find_line_info_containing_address(&r, 0x105, Some(0x200)), Some(0));
    // in the gap after line 1's length
    assert_eq!(find_line_info_containing_address(&r, 0x115, Some(0x200)), None);
    // line 2 runs up to line 3's start
    assert_eq!(find_line_info_containing_address(&r, 0x130, Some(0x200)), Some(1));
    // the last line runs up to the outer end
    assert_eq!(find_line_info_containing_address(&r, 0x1ff, Some(0x200)), Some(2));
    assert_eq!(find_line_info_containing_address(&r, 0x200, Some(0x200)), None);
    // without an outer end, lines without a length contain nothing
    assert_eq!(find_line_info_containing_address(&r, 0x130, None), None);
    assert_eq!(find_line_info_containing_address(&r, 0x50, Some(0x200)), None);
}

#[test]
fn line_lookup_gives_up_where_the_records_broke_off() {
    let r = LineRecords { lines: vec![line(0x100, None, 1)], broken: true };
    assert_eq!(find_line_info_containing_address(&r, 0x105, Some(0x200)), None);
    let r = LineRecords { lines: vec![line(0x100, Some(8), 1)], broken: true };
    assert_eq!(find_line_info_containing_address(&r, 0x105, Some(0x200)), Some(0));
}

fn site(function: &str, lines: Vec<LineRecord>) -> ProcedureItem {
    ProcedureItem::InlineSite(InlineSite { function: Some(function.to_string()), inlinee_lines: Some(records(lines)) })
}

#[test]
fn frames_run_from_the_innermost_inline_site_out() {
    let proc_lines = records(vec![line(0x1000, Some(0x40), 10)]);
    let following = vec![
        site("outer_inline", vec![line(0x1010, Some(0x20), 20)]),
        ProcedureItem::Other,
        site("not_here", vec![line(0x1030, Some(0x8), 30)]),
        site("inner_inline", vec![line(0x1018, Some(0x4), 40)]),
        ProcedureItem::InlineSite(InlineSite { function: Some("unknown_inlinee".to_string()), inlinee_lines: None }),
        ProcedureItem::Procedure,
        site("next_procedure", vec![line(0x1018, Some(0x4), 50)]),
    ];
    let frames = find_frames_from_procedure(0x1019, Some("proc".to_string()), &proc_lines, 0x1040, &following);
    let summary: Vec<(Option<String>, Option<u32>)> =
        frames.iter().map(|f| (f.function.clone(), f.location.as_ref().and_then(|l| l.line))).collect();
    assert_eq!(
        summary,
        vec![
            (Some("inner_inline".to_string()), Some(40)),
            (Some("outer_inline".to_string()), Some(20)),
            (Some("proc".to_string()), Some(10)),
        ]
    );
    assert_eq!(frames[0].location.as_ref().unwrap().file.as_deref(), Some("file40.cpp"));
}

#[test]
fn procedure_frame_without_line() {
    let frames = find_frames_from_procedure(0x5000, None, &records(vec![]), 0x6000, &[]);
    assert_eq!(frames.len(), 1);
    assert!(frames[0].function.is_none() && frames[0].location.is_none());
}

#[test]
fn the_first_procedure_containing_the_address_wins() {
    let procs = vec![
        ProcedureSpan { start_rva: None, len: 0x100 },
        ProcedureSpan { start_rva: Some(0x100), len: 0x10 },
        ProcedureSpan { start_rva: Some(0x108), len: 0x10 },
        ProcedureSpan { start_rva: Some(0x110), len: 0x10 },
    ];
    assert_eq!(procedure_containing(&procs, 0x10a), Some(1));
    assert_eq!(procedure_containing(&procs, 0x112), Some(2));
    assert_eq!(procedure_containing(&procs, 0x11f), Some(3));
    assert_eq!(procedure_containing(&procs, 0x120), None);
    assert_eq!(procedure_containing(&procs, 0x50), None);
}
