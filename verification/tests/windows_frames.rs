use samply_core::windows::addr2line::{
    Addr2LineContext, FrameFunction, FrameSource, LineInfo, ProcedureSymbol,
};
use samply_core::windows::inline_ranges::{
    compute_procedure_inline_ranges, InlineRange, InlineSiteRecord, InlineeLine, SymbolKind,
    SymbolRecord, SymbolStream,
};

fn proc_symbol(start_rva: Option<u32>, len: u32, symbol_index: u32, name: &str) -> ProcedureSymbol {
    ProcedureSymbol {
        start_rva,
        len,
        module_index: 0,
        symbol_index,
        end_symbol_index: symbol_index + 100,
        name: name.to_string(),
    }
}

fn sample_context() -> Addr2LineContext {
    Addr2LineContext::new(&[
        proc_symbol(Some(0x3000), 0x100, 1, "third"),
        proc_symbol(Some(0x1000), 0x80, 2, "first"),
        proc_symbol(Some(0x2000), 0, 3, "empty"),
        proc_symbol(None, 0x40, 4, "unmapped"),
        proc_symbol(Some(0x1000), 0x80, 5, "first_folded"),
        proc_symbol(Some(0x2000), 0x10, 6, "second"),
    ])
}

#[test]
fn context_keeps_procedures_with_code() {
    let ctx = sample_context();
    assert_eq!(ctx.total_symbol_count(), 3);
}

#[test]
fn find_function_takes_the_last_folded_procedure() {
    let ctx = sample_context();
    assert_eq!(ctx.find_function(0x1000), Some((0x1000, "first_folded".to_string())));
    assert_eq!(ctx.find_function(0x107f), Some((0x1000, "first_folded".to_string())));
    assert_eq!(ctx.find_function(0x2008), Some((0x2000, "second".to_string())));
    assert_eq!(ctx.find_function(0x30ff), Some((0x3000, "third".to_string())));
}

#[test]
fn find_function_outside_procedures() {
    let ctx = sample_context();
    assert_eq!(ctx.find_function(0xfff), None);
    assert_eq!(ctx.find_function(0x1080), None);
    assert_eq!(ctx.find_function(0x2010), None);
    assert_eq!(ctx.find_function(0x3100), None);
}

fn line(start_rva: u32, length: Option<u32>, file_index: u32, line_start: u32) -> InlineeLine {
    InlineeLine { start_rva, length, file_index, line_start }
}

fn record(index: u32, kind: SymbolKind) -> SymbolRecord {
    SymbolRecord { index, kind }
}

fn site(inlinee: u32, end: u32, lines: Vec<InlineeLine>) -> SymbolKind {
    SymbolKind::InlineSite(InlineSiteRecord { inlinee, end, lines: Some(lines) })
}

/// A procedure with an inline site A (inlinee 100) that holds a nested site
/// B (inlinee 200) and a nested procedure whose own inline site is skipped.
/// B covers code at 0x120 that A's own lines do not.
fn sample_stream(broken: bool, cut: usize) -> SymbolStream {
    let mut records = vec![
        record(4, site(100, 20, vec![line(0x100, Some(0x10), 1, 10), line(0x110, None, 1, 11)])),
        record(8, site(200, 12, vec![line(0x104, Some(4), 2, 20), line(0x120, Some(8), 2, 21)])),
        record(12, SymbolKind::Other),
        record(14, SymbolKind::Procedure { end: 18 }),
        record(15, site(300, 17, vec![line(0x200, Some(4), 3, 30)])),
        record(17, SymbolKind::Other),
        record(18, SymbolKind::Other),
        record(20, SymbolKind::Other),
        record(22, SymbolKind::Other),
        record(24, SymbolKind::Other),
    ];
    records.truncate(cut);
    SymbolStream { records, broken }
}

fn range_fields(r: &InlineRange) -> (u32, u32, u16, u32, Option<u32>, Option<u32>) {
    (r.start_rva, r.end_rva, r.call_depth, r.inlinee, r.file_index, r.line_start)
}

#[test]
fn inline_ranges_by_depth_with_filled_gap() {
    let stream = sample_stream(false, 10);
    let ranges = match compute_procedure_inline_ranges(&stream, 24) {
        Ok(ranges) => ranges,
        Err(_) => panic!("reading failed"),
    };
    let fields: Vec<_> = ranges.iter().map(range_fields).collect();
    assert_eq!(
        fields,
        vec![
            (0x100, 0x110, 0, 100, Some(1), Some(10)),
            (0x120, 0x128, 0, 100, Some(1), None),
            (0x104, 0x108, 1, 200, Some(2), Some(20)),
            (0x120, 0x128, 1, 200, Some(2), Some(21)),
        ]
    );
}

#[test]
fn inline_ranges_stop_at_the_procedure_end() {
    let stream = sample_stream(false, 10);
    let ranges = match compute_procedure_inline_ranges(&stream, 8) {
        Ok(ranges) => ranges,
        Err(_) => panic!("reading failed"),
    };
    let fields: Vec<_> = ranges.iter().map(range_fields).collect();
    assert_eq!(
        fields,
        vec![
            (0x100, 0x110, 0, 100, Some(1), Some(10)),
            (0x120, 0x128, 0, 100, Some(1), None),
            (0x104, 0x108, 1, 200, Some(2), Some(20)),
            (0x120, 0x128, 1, 200, Some(2), Some(21)),
        ]
    );
    let stream = sample_stream(false, 10);
    let ranges = match compute_procedure_inline_ranges(&stream, 4) {
        Ok(ranges) => ranges,
        Err(_) => panic!("reading failed"),
    };
    assert!(ranges.is_empty());
}

#[test]
fn inline_ranges_fail_on_a_broken_stream() {
    let stream = sample_stream(true, 5);
    assert!(compute_procedure_inline_ranges(&stream, 24).is_err());
    let stream = sample_stream(false, 5);
    assert!(compute_procedure_inline_ranges(&stream, 24).is_ok());
}

#[test]
fn site_without_inlinee_lines_takes_its_callees_ranges() {
    let stream = SymbolStream {
        records: vec![
            record(4, SymbolKind::InlineSite(InlineSiteRecord { inlinee: 7, end: 12, lines: None })),
            record(6, site(8, 10, vec![line(0x40, Some(0x10), 5, 50), line(0x60, Some(0), 5, 51)])),
            record(10, SymbolKind::Other),
            record(12, SymbolKind::Other),
        ],
        broken: false,
    };
    let ranges = match compute_procedure_inline_ranges(&stream, 100) {
        Ok(ranges) => ranges,
        Err(_) => panic!("reading failed"),
    };
    let fields: Vec<_> = ranges.iter().map(range_fields).collect();
    assert_eq!(
        fields,
        vec![(0x40, 0x50, 0, 7, None, None), (0x40, 0x50, 1, 8, Some(5), Some(50))]
    );
}

fn frame_fields(f: &FrameSource) -> (Option<String>, Option<u32>, Option<(Option<u32>, Option<u32>)>) {
    let (name, inlinee) = match &f.function {
        FrameFunction::Procedure(name) => (Some(name.clone()), None),
        FrameFunction::Inlinee(id) => (None, Some(*id)),
    };
    (name, inlinee, f.location.as_ref().map(|l| (l.file_index, l.line)))
}

fn frames_context() -> Addr2LineContext {
    Addr2LineContext::new(&[proc_symbol(Some(0x100), 0x40, 1, "outer")])
}

fn frames_lines() -> Vec<LineInfo> {
    vec![
        LineInfo { start_rva: 0x100, file_index: 9, line_start: 1 },
        LineInfo { start_rva: 0x108, file_index: 9, line_start: 2 },
        LineInfo { start_rva: 0x120, file_index: 9, line_start: 3 },
    ]
}

#[test]
fn find_frames_innermost_first() {
    let ctx = frames_context();
    let ranges = match compute_procedure_inline_ranges(&sample_stream(false, 10), 24) {
        Ok(ranges) => ranges,
        Err(_) => panic!("reading failed"),
    };
    let (start, frames) = ctx.find_frames(0x105, &frames_lines(), &ranges).unwrap();
    assert_eq!(start, 0x100);
    let fields: Vec<_> = frames.iter().map(frame_fields).collect();
    assert_eq!(
        fields,
        vec![
            (None, Some(200), Some((Some(2), Some(20)))),
            (None, Some(100), Some((Some(1), Some(10)))),
            (Some("outer".to_string()), None, Some((Some(9), Some(1)))),
        ]
    );

    let (_, frames) = ctx.find_frames(0x124, &frames_lines(), &ranges).unwrap();
    let fields: Vec<_> = frames.iter().map(frame_fields).collect();
    assert_eq!(
        fields,
        vec![
            (None, Some(200), Some((Some(2), Some(21)))),
            (None, Some(100), Some((Some(1), None))),
            (Some("outer".to_string()), None, Some((Some(9), Some(3)))),
        ]
    );
}

#[test]
fn find_frames_without_inlining_at_the_probe() {
    let ctx = frames_context();
    let ranges = match compute_procedure_inline_ranges(&sample_stream(false, 10), 24) {
        Ok(ranges) => ranges,
        Err(_) => panic!("reading failed"),
    };
    let (_, frames) = ctx.find_frames(0x112, &frames_lines(), &ranges).unwrap();
    let fields: Vec<_> = frames.iter().map(frame_fields).collect();
    assert_eq!(fields, vec![(Some("outer".to_string()), None, Some((Some(9), Some(2))))]);

    let (_, frames) = ctx.find_frames(0x100, &[], &[]).unwrap();
    let fields: Vec<_> = frames.iter().map(frame_fields).collect();
    assert_eq!(fields, vec![(Some("outer".to_string()), None, None)]);

    assert!(ctx.find_frames(0x140, &frames_lines(), &ranges).is_none());
    assert!(ctx.find_frames(0xff, &frames_lines(), &ranges).is_none());
}
