//! The frames that the PDB information gives for an address: the procedure
//! that contains it, the line of the procedure it falls on, and the inline
//! sites of the procedure whose lines cover it.
//!
//! Reading the PDB's streams happens outside: a procedure's lines come here
//! with their addresses already relative to the image, and an inline site
//! with the lines of its inlinee and the name of its function.
use vstd::prelude::*;

verus! {

/// One frame of an address's inline stack.
pub struct Frame {
    pub function: Option<String>,
    pub location: Option<Location>,
}

/// Where in the source a frame is.
pub struct Location {
    pub file: Option<String>,
    pub line: Option<u32>,
    pub column: Option<u32>,
}

/// A line record: where its code starts (relative to the image), how long
/// it is when the record says so, and its source position.
pub struct LineRecord {
    pub start_rva: u32,
    pub length: Option<u32>,
    pub file: Option<String>,
    pub line: u32,
    pub column: Option<u32>,
}

/// The line records of a procedure or of an inline site, in order; `broken`
/// when reading them failed after the last one.
pub struct LineRecords {
    pub lines: Vec<LineRecord>,
    pub broken: bool,
}

/// Where the code of line `i` ends, as far as the search for a line can tell:
/// `None` where it cannot tell (the search then skips the line), and
/// `Some(None)` where the records broke off just where it would look.
pub open spec fn line_end(lines: Seq<LineRecord>, broken: bool, i: int, outer_end: Option<u32>) -> Option<Option<u32>> {
    match (lines[i].length, outer_end) {
        (Some(length), _) => Some(Some((lines[i].start_rva + length) as u32)),
        (None, Some(fallback)) => if i + 1 < lines.len() {
            Some(Some(lines[i + 1].start_rva))
        } else if broken {
            None
        } else {
            Some(Some(fallback))
        },
        (None, None) => Some(None),
    }
}

/// The position of the first line from `i` on whose code contains `address`:
/// a line contains the addresses from its start up to its end (its length,
/// else the next line's start or `outer_end`). The search gives up where the
/// records broke off while it looked for an end.
pub open spec fn line_containing_from(
    lines: Seq<LineRecord>,
    broken: bool,
    address: u32,
    outer_end: Option<u32>,
    i: int,
) -> Option<int>
    decreases lines.len() - i,
{
    if i < 0 || i >= lines.len() {
        None
    } else if address < lines[i].start_rva {
        line_containing_from(lines, broken, address, outer_end, i + 1)
    } else {
        match line_end(lines, broken, i, outer_end) {
            None => None,
            Some(Some(end)) => if address < end {
                Some(i)
            } else {
                line_containing_from(lines, broken, address, outer_end, i + 1)
            },
            Some(None) => line_containing_from(lines, broken, address, outer_end, i + 1),
        }
    }
}

/// The line found lies at or after where the search started.
pub proof fn lemma_line_containing_in_range(
    lines: Seq<LineRecord>,
    broken: bool,
    address: u32,
    outer_end: Option<u32>,
    i: int,
)
    ensures
        line_containing_from(lines, broken, address, outer_end, i) matches Some(j) ==> i <= j < lines.len(),
    decreases lines.len() - i,
{
    if 0 <= i < lines.len() {
        lemma_line_containing_in_range(lines, broken, address, outer_end, i + 1);
    }
}

/// No line's code runs past the end of the address space.
pub open spec fn lengths_fit(lines: Seq<LineRecord>) -> bool {
    forall|i: int|
        0 <= i < lines.len() ==> ((#[trigger] lines[i]).length matches Some(length) ==> lines[i].start_rva + length
            <= u32::MAX)
}

/// The position of the line whose code contains `address`; see
/// `line_containing_from`.
pub fn find_line_info_containing_address(records: &LineRecords, address: u32, outer_end_rva: Option<u32>) -> (r:
    Option<usize>)
    requires
        lengths_fit(records.lines@),
    ensures
        match r {
            Some(i) => line_containing_from(records.lines@, records.broken, address, outer_end_rva, 0) == Some(i as int),
            None => line_containing_from(records.lines@, records.broken, address, outer_end_rva, 0) is None,
        },
{
    let lines = &records.lines;
    let mut i: usize = 0;
    while i < lines.len()
        invariant
            lines@ == records.lines@,
            i <= lines@.len(),
            lengths_fit(lines@),
            line_containing_from(lines@, records.broken, address, outer_end_rva, 0) == line_containing_from(
                lines@,
                records.broken,
                address,
                outer_end_rva,
                i as int,
            ),
        decreases lines@.len() - i,
    {
        let line = &lines[i];
        proof {
            assert(lines@[i as int] == *line);
        }
        if address >= line.start_rva {
            let end: Option<Option<u32>> = match (line.length, outer_end_rva) {
                (Some(length), _) => Some(Some(line.start_rva + length)),
                (None, Some(fallback)) => {
                    if i + 1 < lines.len() {
                        Some(Some(lines[i + 1].start_rva))
                    } else if records.broken {
                        None
                    } else {
                        Some(Some(fallback))
                    }
                },
                (None, None) => Some(None),
            };
            assert(end == line_end(lines@, records.broken, i as int, outer_end_rva));
            match end {
                None => {
                    assert(line_containing_from(lines@, records.broken, address, outer_end_rva, i as int) is None);
                    return None;
                },
                Some(Some(end)) => {
                    if address < end {
                        assert(line_containing_from(lines@, records.broken, address, outer_end_rva, i as int) == Some(
                            i as int,
                        ));
                        return Some(i);
                    }
                },
                Some(None) => {},
            }
        }
        i = i + 1;
    }
    None
}

/// The source position of a line record.
pub fn line_info_to_location(line: &LineRecord) -> (location: Location)
    ensures
        location.file == line.file,
        location.line == Some(line.line),
        location.column == line.column,
{
    Location { file: line.file.clone(), line: Some(line.line), column: line.column }
}

/// An inline site of a procedure: the name of the function inlined there,
/// when it could be told, and the lines of its inlinee, when the module's
/// inlinee table holds it.
pub struct InlineSite {
    pub function: Option<String>,
    pub inlinee_lines: Option<LineRecords>,
}

/// The frame of an inline site for `address`: the site's function, at the
/// line of its inlinee that contains the address.
pub open spec fn is_site_frame(f: Frame, site: InlineSite, address: u32) -> bool {
    &&& f.function == site.function
    &&& site_covers_address(site, address)
    &&& f.location is Some
    &&& f.location->0.file == site_line(site, address).file
    &&& f.location->0.line == Some(site_line(site, address).line)
    &&& f.location->0.column == site_line(site, address).column
}

/// Whether the inlinee of an inline site has a line containing `address`.
pub open spec fn site_covers_address(site: InlineSite, address: u32) -> bool {
    &&& site.inlinee_lines is Some
    &&& line_containing_from(site.inlinee_lines->0.lines@, site.inlinee_lines->0.broken, address, None, 0) is Some
}

/// The line of an inline site's inlinee that contains `address`.
pub open spec fn site_line(site: InlineSite, address: u32) -> LineRecord {
    let records = site.inlinee_lines->0;
    records.lines@[line_containing_from(records.lines@, records.broken, address, None, 0)->0]
}

/// The frame of an inline site for `address`: there is one when the site's
/// inlinee has a line containing the address.
pub fn frame_for_inline_symbol(site: &InlineSite, address: u32) -> (frame: Option<Frame>)
    requires
        site.inlinee_lines matches Some(records) ==> lengths_fit(records.lines@),
    ensures
        frame is Some <==> site_covers_address(*site, address),
        frame matches Some(f) ==> is_site_frame(f, *site, address),
{
    match &site.inlinee_lines {
        Some(records) => match find_line_info_containing_address(records, address, None) {
            Some(i) => {
                proof {
                    lemma_line_containing_in_range(records.lines@, records.broken, address, None, 0);
                }
                let location = line_info_to_location(&records.lines[i]);
                Some(Frame { function: site.function.clone(), location: Some(location) })
            },
            None => None,
        },
        None => None,
    }
}

/// A symbol that follows a procedure symbol in its module.
pub enum ProcedureItem {
    /// The next procedure: the symbols of this one end here.
    Procedure,
    /// An inline site within the procedure.
    InlineSite(InlineSite),
    /// Any other symbol.
    Other,
}

/// Whether the inline site at position `k` of `items` lies within the
/// procedure: no procedure comes before it.
pub open spec fn within_procedure(items: Seq<ProcedureItem>, k: int) -> bool {
    forall|j: int| 0 <= j < k ==> !(#[trigger] items[j] is Procedure)
}

/// Whether the item is an inline site whose inlinee has a line containing
/// `address`.
pub open spec fn site_covers(item: ProcedureItem, address: u32) -> bool {
    item is InlineSite && site_covers_address(item->0, address)
}

/// The positions, within the procedure, of the inline sites that cover
/// `address`, from the outermost in.
pub open spec fn covering_sites(items: Seq<ProcedureItem>, address: u32) -> Seq<int>
    decreases items.len(),
{
    if items.len() == 0 {
        Seq::empty()
    } else {
        let earlier = covering_sites(items.drop_last(), address);
        let k = items.len() - 1;
        if within_procedure(items, k) && site_covers(items[k], address) {
            earlier.push(k)
        } else {
            earlier
        }
    }
}

/// The inline sites' lines all fit in the address space.
pub open spec fn sites_fit(items: Seq<ProcedureItem>) -> bool {
    forall|k: int|
        0 <= k < items.len() ==> (#[trigger] items[k] matches ProcedureItem::InlineSite(site) ==> (
        site.inlinee_lines matches Some(records) ==> lengths_fit(records.lines@)))
}

/// Covering sites over one more item.
proof fn lemma_covering_sites_prefix(items: Seq<ProcedureItem>, k: int, address: u32)
    requires
        0 <= k < items.len(),
    ensures
        covering_sites(items.take(k + 1), address) == (if within_procedure(items, k) && site_covers(items[k], address) {
            covering_sites(items.take(k), address).push(k)
        } else {
            covering_sites(items.take(k), address)
        }),
{
    let prefix = items.take(k + 1);
    assert(prefix.drop_last() == items.take(k));
    assert forall|j: int| 0 <= j < k implies #[trigger] prefix[j] == items[j] by {}
    if within_procedure(items, k) {
        assert forall|j: int| 0 <= j < k implies !(#[trigger] prefix[j] is Procedure) by {
            assert(!(items[j] is Procedure));
        }
    }
    if within_procedure(prefix, k) {
        assert forall|j: int| 0 <= j < k implies !(#[trigger] items[j] is Procedure) by {
            assert(!(prefix[j] is Procedure));
        }
    }
    assert(prefix[k] == items[k]);
}

/// No site after a procedure is within the first procedure: the covering
/// sites end there.
proof fn lemma_covering_sites_stop(items: Seq<ProcedureItem>, k: int, address: u32)
    requires
        0 <= k <= items.len(),
        k < items.len() ==> items[k] is Procedure,
    ensures
        covering_sites(items, address) == covering_sites(items.take(k), address),
    decreases items.len() - k,
{
    if k == items.len() {
        assert(items.take(k) == items);
    } else {
        lemma_covering_sites_stop_from(items, k, items.len() as int, address);
        assert(items.take(items.len() as int) == items);
    }
}

/// Past a procedure at `k`, the covering sites of a prefix stop growing.
proof fn lemma_covering_sites_stop_from(items: Seq<ProcedureItem>, k: int, m: int, address: u32)
    requires
        0 <= k < m <= items.len(),
        items[k] is Procedure,
    ensures
        covering_sites(items.take(m), address) == covering_sites(items.take(k), address),
    decreases m - k,
{
    let prefix = items.take(m);
    assert(prefix.drop_last() == items.take(m - 1));
    assert(prefix[k] == items[k]);
    if m - 1 == k {
        assert(!site_covers(prefix[k], address));
    } else {
        if within_procedure(prefix, m - 1) {
            assert(!(prefix[k] is Procedure));
        }
        lemma_covering_sites_stop_from(items, k, m - 1, address);
    }
}

/// `frames` are the frames of the inline sites at positions `sites` of
/// `following`, in that order.
pub open spec fn frames_of_sites(frames: Seq<Frame>, following: Seq<ProcedureItem>, sites: Seq<int>, address: u32) -> bool {
    &&& frames.len() == sites.len()
    &&& forall|n: int| 0 <= n < sites.len() ==> #[trigger] site_frame_at(frames, following, sites, address, n)
}

/// Frame `n` of `frames` is that of the inline site at position `sites[n]`.
pub open spec fn site_frame_at(
    frames: Seq<Frame>,
    following: Seq<ProcedureItem>,
    sites: Seq<int>,
    address: u32,
    n: int,
) -> bool {
    &&& 0 <= sites[n] < following.len()
    &&& following[sites[n]] is InlineSite
    &&& is_site_frame(frames[n], following[sites[n]]->0, address)
}

/// The frame of a procedure for `address`: its function, at the line of
/// the procedure that contains the address, where the procedure's end bounds
/// its last line.
pub open spec fn is_procedure_frame(
    f: Frame,
    function: Option<String>,
    lines: LineRecords,
    procedure_end_rva: u32,
    address: u32,
) -> bool {
    &&& f.function == function
    &&& match line_containing_from(lines.lines@, lines.broken, address, Some(procedure_end_rva), 0) {
        Some(i) => f.location matches Some(location) && location.file == lines.lines@[i].file && location.line == Some(
            lines.lines@[i].line,
        ) && location.column == lines.lines@[i].column,
        None => f.location is None,
    }
}

/// One more site frame after the others.
proof fn lemma_frames_of_sites_push(
    frames: Seq<Frame>,
    following: Seq<ProcedureItem>,
    sites: Seq<int>,
    address: u32,
    frame: Frame,
    k: int,
)
    requires
        frames_of_sites(frames, following, sites, address),
        0 <= k < following.len(),
        following[k] is InlineSite,
        is_site_frame(frame, following[k]->0, address),
    ensures
        frames_of_sites(frames.push(frame), following, sites.push(k), address),
{
    assert forall|n: int| 0 <= n < sites.push(k).len() implies #[trigger] site_frame_at(
        frames.push(frame),
        following,
        sites.push(k),
        address,
        n,
    ) by {
        if n < sites.len() {
            assert(site_frame_at(frames, following, sites, address, n));
            assert(frames.push(frame)[n] == frames[n]);
            assert(sites.push(k)[n] == sites[n]);
        } else {
            assert(frames.push(frame)[n] == frame);
            assert(sites.push(k)[n] == k);
        }
    }
}

/// The frames of `address` in a procedure, innermost first: a frame for
/// each inline site within the procedure that covers the address, from the
/// innermost out, then the procedure's own frame.
pub fn find_frames_from_procedure(
    address: u32,
    function: Option<String>,
    procedure_lines: &LineRecords,
    procedure_end_rva: u32,
    following: &[ProcedureItem],
) -> (frames: Vec<Frame>)
    requires
        lengths_fit(procedure_lines.lines@),
        sites_fit(following@),
    ensures
        frames@.len() >= 1,
        is_procedure_frame(frames@.last(), function, *procedure_lines, procedure_end_rva, address),
        frames_of_sites(frames@.drop_last().reverse(), following@, covering_sites(following@, address), address),
{
    let ghost wanted_function = function;
    let location = match find_line_info_containing_address(procedure_lines, address, Some(procedure_end_rva)) {
        Some(i) => {
            proof {
                lemma_line_containing_in_range(
                    procedure_lines.lines@,
                    procedure_lines.broken,
                    address,
                    Some(procedure_end_rva),
                    0,
                );
            }
            Some(line_info_to_location(&procedure_lines.lines[i]))
        },
        None => None,
    };
    let mut outward: Vec<Frame> = Vec::new();
    outward.push(Frame { function, location });
    let ghost first = outward@[0];
    assert(is_procedure_frame(first, wanted_function, *procedure_lines, procedure_end_rva, address));
    proof {
        assert(outward@.skip(1) == Seq::<Frame>::empty());
        assert(following@.take(0) == Seq::<ProcedureItem>::empty());
    }
    let mut k: usize = 0;
    while k < following.len()
        invariant_except_break
            k <= following@.len(),
            sites_fit(following@),
            within_procedure(following@, k as int),
            outward@.len() >= 1,
            outward@[0] == first,
            frames_of_sites(outward@.skip(1), following@, covering_sites(following@.take(k as int), address), address),
        ensures
            k <= following@.len(),
            k < following@.len() ==> following@[k as int] is Procedure,
            outward@.len() >= 1,
            outward@[0] == first,
            frames_of_sites(outward@.skip(1), following@, covering_sites(following@.take(k as int), address), address),
        decreases following@.len() - k,
    {
        proof {
            lemma_covering_sites_prefix(following@, k as int, address);
        }
        let ghost before = outward@;
        match &following[k] {
            ProcedureItem::Procedure => {
                break;
            },
            ProcedureItem::InlineSite(site) => {
                if let Some(frame) = frame_for_inline_symbol(site, address) {
                    outward.push(frame);
                    proof {
                        let sites = covering_sites(following@.take(k as int), address);
                        assert(outward@.skip(1) == before.skip(1).push(frame));
                        assert(following@[k as int]->0 == *site);
                        lemma_frames_of_sites_push(before.skip(1), following@, sites, address, frame, k as int);
                    }
                }
            },
            ProcedureItem::Other => {},
        }
        proof {
            assert(within_procedure(following@, k + 1));
        }
        k = k + 1;
    }
    proof {
        lemma_covering_sites_stop(following@, k as int, address);
    }
    let ghost all = outward@;
    let mut frames: Vec<Frame> = Vec::new();
    while outward.len() > 0
        invariant
            outward@ == all.take(outward@.len() as int),
            frames@.len() + outward@.len() == all.len(),
            forall|n: int| 0 <= n < frames@.len() ==> #[trigger] frames@[n] == all[all.len() - 1 - n],
        decreases outward@.len(),
    {
        let frame = outward.pop().unwrap();
        frames.push(frame);
    }
    proof {
        assert(frames@.last() == all[0]);
        assert(frames@.drop_last().reverse() == all.skip(1)) by {
            assert forall|n: int| 0 <= n < all.len() - 1 implies #[trigger] frames@.drop_last().reverse()[n] == all.skip(
                1,
            )[n] by {
                assert(frames@.drop_last().reverse()[n] == frames@[frames@.len() - 2 - n]);
            }
        }
    }
    frames
}

/// A procedure symbol of a module: where its code starts relative to the
/// image (`None` where its section offset has no such address), and its
/// length.
pub struct ProcedureSpan {
    pub start_rva: Option<u32>,
    pub len: u32,
}

/// Whether a procedure's code contains `address`.
pub open spec fn span_contains(p: ProcedureSpan, address: u32) -> bool {
    p.start_rva matches Some(start) && start <= address < start + p.len
}

/// The procedure whose frames hold `address`: the first, in module order
/// and then in symbol order, whose code contains it.
pub fn procedure_containing(procedures: &[ProcedureSpan], address: u32) -> (r: Option<usize>)
    requires
        forall|i: int|
            0 <= i < procedures@.len() ==> ((#[trigger] procedures@[i]).start_rva matches Some(start) ==> start
                + procedures@[i].len <= u32::MAX),
    ensures
        match r {
            Some(i) => i < procedures@.len() && span_contains(procedures@[i as int], address) && forall|j: int|
                0 <= j < i ==> !span_contains(#[trigger] procedures@[j], address),
            None => forall|j: int| 0 <= j < procedures@.len() ==> !span_contains(#[trigger] procedures@[j], address),
        },
{
    let mut i: usize = 0;
    while i < procedures.len()
        invariant
            i <= procedures@.len(),
            forall|j: int| 0 <= j < i ==> !span_contains(#[trigger] procedures@[j], address),
            forall|j: int|
                0 <= j < procedures@.len() ==> ((#[trigger] procedures@[j]).start_rva matches Some(start) ==> start
                    + procedures@[j].len <= u32::MAX),
        decreases procedures@.len() - i,
    {
        let p = &procedures[i];
        assert(procedures@[i as int] == *p);
        if let Some(start) = p.start_rva {
            if start <= address && address < start + p.len {
                return Some(i);
            }
        }
        i = i + 1;
    }
    None
}

} // verus!
