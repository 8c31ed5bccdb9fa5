//! The address ranges that the inline sites of a procedure cover, by depth
//! of inlining, as the frame lookups of a PDB use them.
//!
//! The symbols of a procedure's module come here as plain records, in the
//! order of the module's symbol stream; each inline site comes with the
//! lines of its inlinee (relative to the image), when the module's inlinee
//! table holds it. Sets of addresses are those of the `range_collections`
//! crate.
use crate::seqs::{lemma_filter_push, lemma_map_values_push};
use range_collections::RangeSet;
use vstd::prelude::*;

verus! {

/// A set of addresses, kept as sorted, non-overlapping ranges.
#[verifier::external_body]
pub struct PointSet {
    set: RangeSet<u32>,
}

/// The addresses in a set.
pub uninterp spec fn points(s: PointSet) -> Set<u32>;

/// Whether every range of a set has a start and an end: the set is built
/// from bounded ranges only.
pub uninterp spec fn bounded(s: PointSet) -> bool;

/// The addresses from `start` up to `end`.
pub open spec fn span(start: u32, end: u32) -> Set<u32> {
    Set::new(|x: u32| start <= x < end)
}

/// `RangeSet::empty`: the set without addresses.
#[verifier::external_body]
fn point_set_empty() -> (s: PointSet)
    ensures
        points(s) == Set::<u32>::empty(),
        bounded(s),
{
    PointSet { set: RangeSet::empty() }
}

/// `RangeSet::from(start..end)`: the addresses from `start` up to `end`.
#[verifier::external_body]
fn point_set_from_range(start: u32, end: u32) -> (s: PointSet)
    ensures
        points(s) == span(start, end),
        bounded(s),
{
    PointSet { set: RangeSet::from(start..end) }
}

/// `RangeSet |= RangeSet`: adds the addresses of `b` to `a`.
#[verifier::external_body]
fn point_set_union(a: &mut PointSet, b: PointSet)
    ensures
        points(*final(a)) == points(*old(a)).union(points(b)),
        bounded(*old(a)) && bounded(b) ==> bounded(*final(a)),
{
    a.set |= b.set;
}

/// `RangeSet::is_superset`: whether `a` holds every address of `b`.
#[verifier::external_body]
fn point_set_is_superset(a: &PointSet, b: &PointSet) -> (r: bool)
    ensures
        r == points(*b).subset_of(points(*a)),
{
    a.set.is_superset(&b.set)
}

/// `&RangeSet - &RangeSet`: the addresses of `a` that are not in `b`.
#[verifier::external_body]
fn point_set_difference(a: &PointSet, b: &PointSet) -> (r: PointSet)
    ensures
        points(r) == points(*a).difference(points(*b)),
        bounded(*a) ==> bounded(r),
{
    PointSet { set: &a.set - &b.set }
}

/// `RangeSet::boundaries` of a set of bounded ranges: where its ranges start
/// and end, alternately, in increasing order. The set keeps its ranges
/// sorted, apart and not adjacent, so the boundaries strictly increase; the
/// addresses are those from each even boundary up to the next one.
#[verifier::external_body]
fn point_set_boundaries(s: &PointSet) -> (r: Vec<u32>)
    requires
        bounded(*s),
    ensures
        r@.len() % 2 == 0,
        forall|k: int, l: int| 0 <= k < l < r@.len() ==> #[trigger] r@[k] < #[trigger] r@[l],
        forall|x: u32|
            points(*s).contains(x) <==> exists|k: int| 0 <= k < r@.len() / 2 && r@[2 * k] <= x < #[trigger] r@[2 * k + 1],
{
    s.set.boundaries().to_vec()
}

/// A line of an inlinee: where its code starts (relative to the image), its
/// length when the record gives one, its file and its line.
pub struct InlineeLine {
    pub start_rva: u32,
    pub length: Option<u32>,
    pub file_index: u32,
    pub line_start: u32,
}

/// An inline site symbol: the id of the function inlined there, the index
/// where the site's symbols end, and the lines of the inlinee when the
/// module's inlinee table holds it.
pub struct InlineSiteRecord {
    pub inlinee: u32,
    pub end: u32,
    pub lines: Option<Vec<InlineeLine>>,
}

/// What a symbol record is, as far as inline ranges go.
pub enum SymbolKind {
    /// A nested procedure, whose symbols end at `end`.
    Procedure { end: u32 },
    InlineSite(InlineSiteRecord),
    Other,
}

/// A symbol record: its index (its position in the module's symbol data)
/// and what it is.
pub struct SymbolRecord {
    pub index: u32,
    pub kind: SymbolKind,
}

/// The records of a module's symbol stream from some point on, in order;
/// `broken` when reading failed after the last one.
pub struct SymbolStream {
    pub records: Vec<SymbolRecord>,
    pub broken: bool,
}

/// Reading the symbol stream failed.
pub struct SymbolReadError;

/// An address range of an inline site: the inlinee, how deep the call is
/// inlined, and where in the source the range lies, when known.
pub struct InlineRange {
    pub start_rva: u32,
    pub end_rva: u32,
    pub call_depth: u16,
    pub inlinee: u32,
    pub file_index: Option<u32>,
    pub line_start: Option<u32>,
}

/// The records' indices increase, and a nested procedure's symbols end after
/// the procedure's own record.
pub open spec fn stream_wf(records: Seq<SymbolRecord>) -> bool {
    &&& forall|i: int, j: int| 0 <= i < j < records.len() ==> #[trigger] records[i].index < #[trigger] records[j].index
    &&& forall|i: int|
        0 <= i < records.len() ==> ((#[trigger] records[i]).kind matches SymbolKind::Procedure { end } ==> end
            > records[i].index)
}

/// The lines of an inline site end within the address space.
pub open spec fn site_lines_fit(site: InlineSiteRecord) -> bool {
    site.lines matches Some(lines) ==> forall|k: int|
        0 <= k < lines@.len() ==> ((#[trigger] lines@[k]).length matches Some(l) ==> lines@[k].start_rva + l
            <= u32::MAX)
}

/// Every inline site of the stream has lines that fit.
pub open spec fn stream_lines_fit(records: Seq<SymbolRecord>) -> bool {
    forall|i: int|
        0 <= i < records.len() ==> ((#[trigger] records[i]).kind matches SymbolKind::InlineSite(site)
            ==> site_lines_fit(site))
}

/// The addresses that the ranges at `depth` among `entries` cover.
pub open spec fn covered(entries: Seq<InlineRange>, depth: u16) -> Set<u32> {
    Set::new(
        |x: u32|
            exists|k: int|
                0 <= k < entries.len() && (#[trigger] entries[k]).call_depth == depth && entries[k].start_rva <= x
                    < entries[k].end_rva,
    )
}

/// The addresses a range covers.
pub open spec fn range_points(r: InlineRange) -> Set<u32> {
    span(r.start_rva, r.end_rva)
}

/// Whether a line of an inlinee has code: a length other than zero.
pub open spec fn has_code() -> spec_fn(InlineeLine) -> bool {
    |l: InlineeLine| l.length matches Some(n) && n != 0
}

/// The range of a line of an inlinee with code, at `depth`.
pub open spec fn line_range(inlinee: u32, depth: u16) -> spec_fn(InlineeLine) -> InlineRange {
    |l: InlineeLine|
        InlineRange {
            start_rva: l.start_rva,
            end_rva: (l.start_rva + l.length->0) as u32,
            call_depth: depth,
            inlinee,
            file_index: Some(l.file_index),
            line_start: Some(l.line_start),
        }
}

/// The ranges of an inline site's own lines, at `depth`, in order.
pub open spec fn own_ranges(site: InlineSiteRecord, depth: u16) -> Seq<InlineRange> {
    match site.lines {
        Some(lines) => lines@.filter(has_code()).map_values(line_range(site.inlinee, depth)),
        None => Seq::empty(),
    }
}

/// Where reading goes on after skipping to `end` from position `p`: the
/// first record at or after `p` whose index reaches `end`.
pub open spec fn skip_pos(records: Seq<SymbolRecord>, p: int, end: u32) -> int
    decreases records.len() - p,
{
    if p >= records.len() || records[p].index >= end {
        p
    } else {
        skip_pos(records, p + 1, end)
    }
}

/// Skips the records before the first one, at or after `from`, whose index
/// reaches `end`.
fn skip_to(records: &Vec<SymbolRecord>, from: usize, end: u32) -> (p: usize)
    requires
        from <= records@.len(),
    ensures
        from <= p <= records@.len(),
        p == skip_pos(records@, from as int, end),
{
    let mut p = from;
    while p < records.len() && records[p].index < end
        invariant
            from <= p <= records@.len(),
            skip_pos(records@, p as int, end) == skip_pos(records@, from as int, end),
        decreases records@.len() - p,
    {
        p = p + 1;
    }
    p
}

/// The file of the first of an inline site's own ranges, if it has any.
pub open spec fn first_file(own: Seq<InlineRange>) -> Option<u32> {
    if own.len() > 0 {
        own[0].file_index
    } else {
        None
    }
}

/// The ranges that stand in for the addresses `missing`: the one list that
/// `fills` describes (see `lemma_fills_unique`).
pub open spec fn fill_ranges(missing: Set<u32>, depth: u16, inlinee: u32, file_index: Option<u32>) -> Seq<
    InlineRange,
> {
    choose|e: Seq<InlineRange>| fills(e, missing, depth, inlinee, file_index)
}

/// What processing an inline site gives, whose record lies just before
/// position `pos` of a stream's records (`broken` when reading fails after
/// the last of them): whether reading went well, where reading goes on,
/// and the ranges appended, in order. These are the ranges of the site's
/// own lines at `depth`, those of the sites nested in it (one level
/// deeper), and those that stand in for the addresses its callees cover and
/// its own lines do not.
pub open spec fn site_run(records: Seq<SymbolRecord>, broken: bool, pos: int, site: InlineSiteRecord, depth: u16) -> (
    bool,
    int,
    Seq<InlineRange>,
)
    decreases records.len() - pos, 1int,
{
    let own = own_ranges(site, depth);
    let kids = children_run(records, broken, pos, site.end, (depth + 1) as u16);
    let missing = covered(kids.2, (depth + 1) as u16).difference(covered(own, depth));
    (kids.0, kids.1, own + kids.2 + fill_ranges(missing, depth, site.inlinee, first_file(own)))
}

/// What processing the records from position `pos` on gives, up to the
/// first whose index reaches `end`: nested procedures are skipped, and each
/// inline site is processed at `depth` (see `site_run`). Whether reading went
/// well, where reading goes on, and the ranges appended, in order.
pub open spec fn children_run(records: Seq<SymbolRecord>, broken: bool, pos: int, end: u32, depth: u16) -> (
    bool,
    int,
    Seq<InlineRange>,
)
    decreases records.len() - pos, 0int,
{
    if pos < 0 || pos >= records.len() {
        (!broken, pos, Seq::empty())
    } else if records[pos].index >= end {
        (true, pos + 1, Seq::empty())
    } else {
        match records[pos].kind {
            SymbolKind::Procedure { end: e } => {
                let q = skip_pos(records, pos + 1, e);
                if pos < q <= records.len() {
                    children_run(records, broken, q, end, depth)
                } else {
                    (false, q, Seq::empty())
                }
            },
            SymbolKind::InlineSite(child) => {
                let r = site_run(records, broken, pos + 1, child, depth);
                if !r.0 {
                    (false, r.1, Seq::empty())
                } else if pos < r.1 <= records.len() {
                    let rest = children_run(records, broken, r.1, end, depth);
                    (rest.0, rest.1, r.2 + rest.2)
                } else {
                    (false, r.1, Seq::empty())
                }
            },
            SymbolKind::Other => children_run(records, broken, pos + 1, end, depth),
        }
    }
}

/// Whether processing an inline site at `depth`, whose record lies just
/// before position `pos`, keeps every deeper site's depth within a `u16`.
pub open spec fn site_fits(records: Seq<SymbolRecord>, broken: bool, pos: int, site: InlineSiteRecord, depth: u16) -> bool
    decreases records.len() - pos, 1int,
{
    children_fits(records, broken, pos, site.end, depth)
}

/// Whether processing the records from position `pos` on, up to the first
/// whose index reaches `end`, within a site at `depth`, keeps the depth of
/// every inline site met (one more than `depth`, and deeper for theirs)
/// within a `u16`.
pub open spec fn children_fits(records: Seq<SymbolRecord>, broken: bool, pos: int, end: u32, depth: u16) -> bool
    decreases records.len() - pos, 0int,
{
    if pos < 0 || pos >= records.len() || records[pos].index >= end {
        true
    } else {
        match records[pos].kind {
            SymbolKind::Procedure { end: e } => {
                let q = skip_pos(records, pos + 1, e);
                pos < q <= records.len() ==> children_fits(records, broken, q, end, depth)
            },
            SymbolKind::InlineSite(child) => {
                &&& depth < u16::MAX
                &&& site_fits(records, broken, pos + 1, child, (depth + 1) as u16)
                &&& ({
                    let r = site_run(records, broken, pos + 1, child, (depth + 1) as u16);
                    r.0 && pos < r.1 <= records.len() ==> children_fits(records, broken, r.1, end, depth)
                })
            },
            SymbolKind::Other => children_fits(records, broken, pos + 1, end, depth),
        }
    }
}

/// Whether processing a procedure's records from position `pos` on, up to
/// the first whose index reaches `end`, keeps the depth of every inline site
/// met (0 for the procedure's own, deeper for theirs) within a `u16`.
pub open spec fn procedure_fits(records: Seq<SymbolRecord>, broken: bool, pos: int, end: u32) -> bool
    decreases records.len() - pos,
{
    if pos < 0 || pos >= records.len() || records[pos].index >= end {
        true
    } else {
        match records[pos].kind {
            SymbolKind::Procedure { end: e } => {
                let q = skip_pos(records, pos + 1, e);
                pos < q <= records.len() ==> procedure_fits(records, broken, q, end)
            },
            SymbolKind::InlineSite(child) => {
                &&& site_fits(records, broken, pos + 1, child, 0)
                &&& ({
                    let r = site_run(records, broken, pos + 1, child, 0);
                    r.0 && pos < r.1 <= records.len() ==> procedure_fits(records, broken, r.1, end)
                })
            },
            SymbolKind::Other => procedure_fits(records, broken, pos + 1, end),
        }
    }
}

/// A site whose depth plus the records left stays below the `u16` limit fits.
proof fn lemma_site_fits_when_short(records: Seq<SymbolRecord>, broken: bool, pos: int, site: InlineSiteRecord, depth: u16)
    requires
        depth + (records.len() - pos) < u16::MAX,
    ensures
        site_fits(records, broken, pos, site, depth),
    decreases records.len() - pos, 1int,
{
    lemma_children_fit_when_short(records, broken, pos, site.end, depth);
}

/// Records within a site whose depth plus the records left stays below the
/// `u16` limit fit.
proof fn lemma_children_fit_when_short(records: Seq<SymbolRecord>, broken: bool, pos: int, end: u32, depth: u16)
    requires
        depth + (records.len() - pos) < u16::MAX,
    ensures
        children_fits(records, broken, pos, end, depth),
    decreases records.len() - pos, 0int,
{
    if !(pos < 0 || pos >= records.len() || records[pos].index >= end) {
        match records[pos].kind {
            SymbolKind::Procedure { end: e } => {
                let q = skip_pos(records, pos + 1, e);
                if pos < q <= records.len() {
                    lemma_children_fit_when_short(records, broken, q, end, depth);
                }
            },
            SymbolKind::InlineSite(child) => {
                lemma_site_fits_when_short(records, broken, pos + 1, child, (depth + 1) as u16);
                let r = site_run(records, broken, pos + 1, child, (depth + 1) as u16);
                if r.0 && pos < r.1 <= records.len() {
                    lemma_children_fit_when_short(records, broken, r.1, end, depth);
                }
            },
            SymbolKind::Other => {
                lemma_children_fit_when_short(records, broken, pos + 1, end, depth);
            },
        }
    }
}

/// A procedure's records fit when there are fewer of them left than the
/// `u16` limit: no site can be nested deeper than there are records.
pub proof fn lemma_procedure_fits_when_short(records: Seq<SymbolRecord>, broken: bool, pos: int, end: u32)
    requires
        records.len() - pos < u16::MAX,
    ensures
        procedure_fits(records, broken, pos, end),
    decreases records.len() - pos,
{
    if !(pos < 0 || pos >= records.len() || records[pos].index >= end) {
        match records[pos].kind {
            SymbolKind::Procedure { end: e } => {
                let q = skip_pos(records, pos + 1, e);
                if pos < q <= records.len() {
                    lemma_procedure_fits_when_short(records, broken, q, end);
                }
            },
            SymbolKind::InlineSite(child) => {
                lemma_site_fits_when_short(records, broken, pos + 1, child, 0);
                let r = site_run(records, broken, pos + 1, child, 0);
                if r.0 && pos < r.1 <= records.len() {
                    lemma_procedure_fits_when_short(records, broken, r.1, end);
                }
            },
            SymbolKind::Other => {
                lemma_procedure_fits_when_short(records, broken, pos + 1, end);
            },
        }
    }
}

/// Ranges appended before what processing from some point gives.
pub open spec fn after(acc: Seq<InlineRange>, run: (bool, int, Seq<InlineRange>)) -> (bool, int, Seq<InlineRange>) {
    (run.0, run.1, acc + run.2)
}

/// Covered addresses after one more range.
proof fn lemma_covered_push(entries: Seq<InlineRange>, e: InlineRange, depth: u16)
    ensures
        covered(entries.push(e), depth) == (if e.call_depth == depth {
            covered(entries, depth).union(range_points(e))
        } else {
            covered(entries, depth)
        }),
{
    let pushed = entries.push(e);
    assert forall|x: u32| covered(pushed, depth).contains(x) <==> (if e.call_depth == depth {
        covered(entries, depth).union(range_points(e))
    } else {
        covered(entries, depth)
    }).contains(x) by {
        if covered(pushed, depth).contains(x) {
            let k = choose|k: int|
                0 <= k < pushed.len() && (#[trigger] pushed[k]).call_depth == depth && pushed[k].start_rva <= x
                    < pushed[k].end_rva;
            if k < entries.len() {
                assert(entries[k] == pushed[k]);
            }
        }
        if covered(entries, depth).contains(x) {
            let k = choose|k: int|
                0 <= k < entries.len() && (#[trigger] entries[k]).call_depth == depth && entries[k].start_rva <= x
                    < entries[k].end_rva;
            assert(pushed[k] == entries[k]);
        }
        if e.call_depth == depth && range_points(e).contains(x) {
            assert(pushed[entries.len() as int] == e);
        }
    }
    assert(covered(pushed, depth) =~= (if e.call_depth == depth {
        covered(entries, depth).union(range_points(e))
    } else {
        covered(entries, depth)
    }));
}

/// Covered addresses of two lists of ranges.
proof fn lemma_covered_append(a: Seq<InlineRange>, b: Seq<InlineRange>, depth: u16)
    ensures
        covered(a + b, depth) == covered(a, depth).union(covered(b, depth)),
{
    let ab = a + b;
    assert forall|x: u32| covered(ab, depth).contains(x) <==> covered(a, depth).union(covered(b, depth)).contains(x) by {
        if covered(ab, depth).contains(x) {
            let k = choose|k: int|
                0 <= k < ab.len() && (#[trigger] ab[k]).call_depth == depth && ab[k].start_rva <= x < ab[k].end_rva;
            if k < a.len() {
                assert(a[k] == ab[k]);
            } else {
                assert(b[k - a.len()] == ab[k]);
            }
        }
        if covered(a, depth).contains(x) {
            let k = choose|k: int|
                0 <= k < a.len() && (#[trigger] a[k]).call_depth == depth && a[k].start_rva <= x < a[k].end_rva;
            assert(ab[k] == a[k]);
        }
        if covered(b, depth).contains(x) {
            let k = choose|k: int|
                0 <= k < b.len() && (#[trigger] b[k]).call_depth == depth && b[k].start_rva <= x < b[k].end_rva;
            assert(ab[a.len() + k] == b[k]);
        }
    }
    assert(covered(ab, depth) =~= covered(a, depth).union(covered(b, depth)));
}

/// Appends the ranges of an inline site's own lines (those with code), and
/// gives the set of their addresses and the file of the first of them.
fn push_own_ranges(site: &InlineSiteRecord, depth: u16, lines: &mut Vec<InlineRange>) -> (r: (PointSet, Option<u32>))
    requires
        site_lines_fit(*site),
    ensures
        final(lines)@ == old(lines)@ + own_ranges(*site, depth),
        points(r.0) == covered(own_ranges(*site, depth), depth),
        bounded(r.0),
        r.1 == (if own_ranges(*site, depth).len() > 0 {
            own_ranges(*site, depth)[0].file_index
        } else {
            None
        }),
{
    let mut ranges = point_set_empty();
    let mut file_index: Option<u32> = None;
    let ghost start = lines@;
    proof {
        assert(covered(Seq::<InlineRange>::empty(), depth) =~= Set::<u32>::empty());
        assert(lines@ == start + Seq::<InlineRange>::empty());
    }
    if let Some(site_lines) = &site.lines {
        let ghost f = line_range(site.inlinee, depth);
        let mut k: usize = 0;
        while k < site_lines.len()
            invariant
                k <= site_lines@.len(),
                site_lines_fit(*site),
                site.lines == Some(*site_lines),
                f == line_range(site.inlinee, depth),
                lines@ == start + site_lines@.take(k as int).filter(has_code()).map_values(f),
                points(ranges) == covered(site_lines@.take(k as int).filter(has_code()).map_values(f), depth),
                bounded(ranges),
                file_index == (if site_lines@.take(k as int).filter(has_code()).len() > 0 {
                    Some(site_lines@.take(k as int).filter(has_code())[0].file_index)
                } else {
                    None
                }),
            decreases site_lines@.len() - k,
        {
            let line = &site_lines[k];
            let ghost prefix = site_lines@.take(k as int);
            proof {
                assert(site_lines@.take(k + 1) == prefix.push(*line));
                lemma_filter_push(prefix, *line, has_code());
            }
            match line.length {
                Some(length) => {
                    if length != 0 {
                        let range = InlineRange {
                            start_rva: line.start_rva,
                            end_rva: line.start_rva + length,
                            call_depth: depth,
                            inlinee: site.inlinee,
                            file_index: Some(line.file_index),
                            line_start: Some(line.line_start),
                        };
                        let ghost before = lines@;
                        let ghost mapped = prefix.filter(has_code()).map_values(f);
                        lines.push(range);
                        point_set_union(&mut ranges, point_set_from_range(line.start_rva, line.start_rva + length));
                        if file_index.is_none() {
                            file_index = Some(line.file_index);
                        }
                        proof {
                            assert(f(*line) == range);
                            lemma_map_values_push(prefix.filter(has_code()), *line, f);
                            assert(lines@ == start + mapped.push(range));
                            lemma_covered_push(mapped, range, depth);
                            assert(range_points(range) == span(line.start_rva, (line.start_rva + length) as u32));
                            assert(prefix.filter(has_code()).push(*line)[0] == if prefix.filter(has_code()).len() > 0 {
                                prefix.filter(has_code())[0]
                            } else {
                                *line
                            });
                        }
                    }
                },
                None => {},
            }
            k = k + 1;
        }
        proof {
            assert(site_lines@.take(k as int) == site_lines@);
        }
    }
    (ranges, file_index)
}

/// The ranges that stand in for addresses which an inline site's callees
/// cover but its own lines do not: one for each range of `missing`, in
/// increasing order, at `depth`, without a line.
pub open spec fn fills(entries: Seq<InlineRange>, missing: Set<u32>, depth: u16, inlinee: u32, file_index: Option<u32>) -> bool {
    &&& forall|k: int|
        0 <= k < entries.len() ==> {
            &&& (#[trigger] entries[k]).call_depth == depth
            &&& entries[k].inlinee == inlinee
            &&& entries[k].file_index == file_index
            &&& entries[k].line_start is None
            &&& entries[k].start_rva < entries[k].end_rva
        }
    &&& forall|k: int, l: int| 0 <= k < l < entries.len() ==> #[trigger] entries[k].end_rva < #[trigger] entries[l].start_rva
    &&& covered(entries, depth) == missing
}

/// Appends a range for each range of `missing`; see `fills`.
fn push_missing_ranges(
    missing: &PointSet,
    depth: u16,
    inlinee: u32,
    file_index: Option<u32>,
    lines: &mut Vec<InlineRange>,
)
    requires
        bounded(*missing),
    ensures
        final(lines)@.len() >= old(lines)@.len(),
        final(lines)@.take(old(lines)@.len() as int) == old(lines)@,
        fills(final(lines)@.skip(old(lines)@.len() as int), points(*missing), depth, inlinee, file_index),
{
    let boundaries = point_set_boundaries(missing);
    let ghost start = lines@;
    let mut k: usize = 0;
    while k + 1 < boundaries.len()
        invariant
            boundaries@.len() % 2 == 0,
            k % 2 == 0,
            k <= boundaries@.len(),
            forall|a: int, b: int| 0 <= a < b < boundaries@.len() ==> #[trigger] boundaries@[a] < #[trigger] boundaries@[b],
            lines@.len() == start.len() + k / 2,
            lines@.take(start.len() as int) == start,
            forall|n: int|
                0 <= n < k / 2 ==> {
                    let e = #[trigger] lines@[start.len() + n];
                    &&& e.start_rva == boundaries@[2 * n]
                    &&& e.end_rva == boundaries@[2 * n + 1]
                    &&& e.call_depth == depth
                    &&& e.inlinee == inlinee
                    &&& e.file_index == file_index
                    &&& e.line_start is None
                },
        decreases boundaries@.len() - k,
    {
        lines.push(
            InlineRange {
                start_rva: boundaries[k],
                end_rva: boundaries[k + 1],
                call_depth: depth,
                inlinee,
                file_index,
                line_start: None,
            },
        );
        k = k + 2;
    }
    proof {
        let appended = lines@.skip(start.len() as int);
        assert(k == boundaries@.len());
        assert forall|n: int| 0 <= n < appended.len() implies #[trigger] appended[n] == lines@[start.len() + n] by {}
        assert forall|x: u32| covered(appended, depth).contains(x) <==> points(*missing).contains(x) by {
            if covered(appended, depth).contains(x) {
                let n = choose|n: int|
                    0 <= n < appended.len() && (#[trigger] appended[n]).call_depth == depth && appended[n].start_rva
                        <= x < appended[n].end_rva;
                assert(lines@[start.len() + n] == appended[n]);
                assert(boundaries@[2 * n] <= x < boundaries@[2 * n + 1]);
            }
            if points(*missing).contains(x) {
                let n = choose|n: int|
                    0 <= n < boundaries@.len() / 2 && boundaries@[2 * n] <= x < #[trigger] boundaries@[2 * n + 1];
                assert(appended[n] == lines@[start.len() + n]);
            }
        }
        assert(covered(appended, depth) =~= points(*missing));
        assert forall|a: int, b: int| 0 <= a < b < appended.len() implies #[trigger] appended[a].end_rva
            < #[trigger] appended[b].start_rva by {
            assert(appended[a] == lines@[start.len() + a]);
            assert(appended[b] == lines@[start.len() + b]);
            assert(boundaries@[2 * a + 1] < boundaries@[2 * b]);
        }
        assert forall|n: int| 0 <= n < appended.len() implies (#[trigger] appended[n]).start_rva < appended[n].end_rva by {
            assert(appended[n] == lines@[start.len() + n]);
            assert(boundaries@[2 * n] < boundaries@[2 * n + 1]);
        }
    }
}

/// Two lists of ranges that both stand in for the same addresses are the
/// same: the first range runs from the least address up to the first one
/// after it that is missing, and so on.
pub proof fn lemma_fills_unique(
    a: Seq<InlineRange>,
    b: Seq<InlineRange>,
    missing: Set<u32>,
    depth: u16,
    inlinee: u32,
    file_index: Option<u32>,
)
    requires
        fills(a, missing, depth, inlinee, file_index),
        fills(b, missing, depth, inlinee, file_index),
    ensures
        a == b,
    decreases a.len() + b.len(),
{
    if a.len() == 0 || b.len() == 0 {
        if a.len() > 0 {
            assert(covered(a, depth).contains(a[0].start_rva));
        }
        if b.len() > 0 {
            assert(covered(b, depth).contains(b[0].start_rva));
        }
        assert(a =~= b);
    } else {
        lemma_fills_first(a, missing, depth, inlinee, file_index);
        lemma_fills_first(b, missing, depth, inlinee, file_index);
        let (a0, b0) = (a[0], b[0]);
        assert(a0.start_rva == b0.start_rva) by {
            assert(missing.contains(a0.start_rva));
            assert(missing.contains(b0.start_rva));
        }
        assert(a0.end_rva == b0.end_rva) by {
            if a0.end_rva < b0.end_rva {
                assert(b0.start_rva <= a0.end_rva);
                assert(!missing.contains(a0.end_rva));
            } else if b0.end_rva < a0.end_rva {
                assert(!missing.contains(b0.end_rva));
            }
        }
        assert(a0 == b0);
        let rest = missing.difference(range_points(a0));
        lemma_fills_unique(a.skip(1), b.skip(1), rest, depth, inlinee, file_index);
        assert(a =~= seq![a0] + a.skip(1));
        assert(b =~= seq![b0] + b.skip(1));
    }
}

/// The first range of a list that stands in for `missing` starts at its
/// least address and ends at the first address after that which is not in
/// it; the rest of the list stands in for the addresses beyond it.
proof fn lemma_fills_first(a: Seq<InlineRange>, missing: Set<u32>, depth: u16, inlinee: u32, file_index: Option<u32>)
    requires
        fills(a, missing, depth, inlinee, file_index),
        a.len() > 0,
    ensures
        missing.contains(a[0].start_rva),
        forall|x: u32| #[trigger] missing.contains(x) ==> a[0].start_rva <= x,
        !missing.contains(a[0].end_rva),
        forall|x: u32| a[0].start_rva <= x < a[0].end_rva ==> #[trigger] missing.contains(x),
        fills(a.skip(1), missing.difference(range_points(a[0])), depth, inlinee, file_index),
{
    let a0 = a[0];
    let tail = a.skip(1);
    assert(covered(a, depth).contains(a0.start_rva));
    assert forall|x: u32| #[trigger] missing.contains(x) implies a0.start_rva <= x by {
        assert(covered(a, depth).contains(x));
        let k = choose|k: int| 0 <= k < a.len() && (#[trigger] a[k]).call_depth == depth && a[k].start_rva <= x < a[k].end_rva;
        if k > 0 {
            assert(a[0].end_rva < a[k].start_rva);
        }
    }
    assert(!missing.contains(a0.end_rva)) by {
        if covered(a, depth).contains(a0.end_rva) {
            let k = choose|k: int|
                0 <= k < a.len() && (#[trigger] a[k]).call_depth == depth && a[k].start_rva <= a0.end_rva < a[k].end_rva;
            if k > 0 {
                assert(a[0].end_rva < a[k].start_rva);
            }
        }
    }
    assert forall|x: u32| a0.start_rva <= x < a0.end_rva implies #[trigger] missing.contains(x) by {
        assert(a[0].call_depth == depth);
        assert(covered(a, depth).contains(x));
    }
    assert forall|x: u32| covered(tail, depth).contains(x) <==> missing.difference(range_points(a0)).contains(x) by {
        if covered(tail, depth).contains(x) {
            let k = choose|k: int|
                0 <= k < tail.len() && (#[trigger] tail[k]).call_depth == depth && tail[k].start_rva <= x < tail[k].end_rva;
            assert(tail[k] == a[k + 1]);
            assert(a[0].end_rva < a[k + 1].start_rva);
            assert(covered(a, depth).contains(x));
        }
        if missing.difference(range_points(a0)).contains(x) {
            assert(covered(a, depth).contains(x));
            let k = choose|k: int| 0 <= k < a.len() && (#[trigger] a[k]).call_depth == depth && a[k].start_rva <= x < a[k].end_rva;
            assert(k != 0);
            assert(tail[k - 1] == a[k]);
        }
    }
    assert(covered(tail, depth) =~= missing.difference(range_points(a0)));
    assert forall|k: int, l: int| 0 <= k < l < tail.len() implies #[trigger] tail[k].end_rva < #[trigger] tail[l].start_rva by {
        assert(tail[k] == a[k + 1]);
        assert(tail[l] == a[l + 1]);
    }
    assert forall|k: int| 0 <= k < tail.len() implies {
        &&& (#[trigger] tail[k]).call_depth == depth
        &&& tail[k].inlinee == inlinee
        &&& tail[k].file_index == file_index
        &&& tail[k].line_start is None
        &&& tail[k].start_rva < tail[k].end_rva
    } by {
        assert(tail[k] == a[k + 1]);
    }
}

/// Each range deeper than `depth` lies within the ranges one level up.
pub open spec fn nested_below(entries: Seq<InlineRange>, depth: u16) -> bool {
    forall|k: int|
        0 <= k < entries.len() && (#[trigger] entries[k]).call_depth > depth ==> range_points(entries[k]).subset_of(
            covered(entries, (entries[k].call_depth - 1) as u16),
        )
}

/// The ranges are at `depth` or deeper, and none is empty.
pub open spec fn at_or_below(entries: Seq<InlineRange>, depth: u16) -> bool {
    forall|k: int|
        0 <= k < entries.len() ==> (#[trigger] entries[k]).call_depth >= depth && entries[k].start_rva
            < entries[k].end_rva
}

/// Ranges that are all among `t` cover no more than `t` does.
proof fn lemma_covered_subset(s: Seq<InlineRange>, t: Seq<InlineRange>, depth: u16)
    requires
        forall|i: int| 0 <= i < s.len() ==> t.contains(#[trigger] s[i]),
    ensures
        covered(s, depth).subset_of(covered(t, depth)),
{
    assert forall|x: u32| covered(s, depth).contains(x) implies covered(t, depth).contains(x) by {
        let i = choose|i: int|
            0 <= i < s.len() && (#[trigger] s[i]).call_depth == depth && s[i].start_rva <= x < s[i].end_rva;
        assert(t.contains(s[i]));
        let j = choose|j: int| 0 <= j < t.len() && t[j] == s[i];
        assert(t[j].call_depth == depth && t[j].start_rva <= x < t[j].end_rva);
    }
}

/// Ranges that are all deeper than `depth` cover nothing at `depth`.
proof fn lemma_covered_deeper(s: Seq<InlineRange>, depth: u16)
    requires
        forall|k: int| 0 <= k < s.len() ==> (#[trigger] s[k]).call_depth > depth,
    ensures
        covered(s, depth) == Set::<u32>::empty(),
{
    assert(covered(s, depth) =~= Set::<u32>::empty());
}

/// Processes an inline site whose record was just read, and the symbols
/// within it: appends the ranges of the site's own lines at `call_depth`,
/// then (through the nested sites, one level deeper) those of its callees,
/// skipping nested procedures, then a range at `call_depth` for each range
/// of addresses that its callees cover but its own lines do not. Gives the
/// addresses the site covers: its lines' and its callees'.
#[verifier::rlimit(60)]
fn process_inlinee_symbols(
    stream: &SymbolStream,
    pos: &mut usize,
    site: &InlineSiteRecord,
    call_depth: u16,
    lines: &mut Vec<InlineRange>,
) -> (r: Result<PointSet, SymbolReadError>)
    requires
        stream_wf(stream.records@),
        stream_lines_fit(stream.records@),
        site_lines_fit(*site),
        *old(pos) <= stream.records@.len(),
        site_fits(stream.records@, stream.broken, *old(pos) as int, *site, call_depth),
    ensures
        *old(pos) <= *final(pos) <= stream.records@.len(),
        final(lines)@.len() >= old(lines)@.len(),
        final(lines)@.take(old(lines)@.len() as int) == old(lines)@,
        r matches Ok(set) ==> ({
            let appended = final(lines)@.skip(old(lines)@.len() as int);
            &&& bounded(set)
            &&& points(set) == covered(appended, call_depth)
            &&& at_or_below(appended, call_depth)
            &&& nested_below(appended, call_depth)
            &&& appended.take(own_ranges(*site, call_depth).len() as int) == own_ranges(*site, call_depth)
            &&& own_ranges(*site, call_depth).len() <= appended.len()
        }),
        ({
            let run = site_run(stream.records@, stream.broken, *old(pos) as int, *site, call_depth);
            &&& (r is Ok <==> run.0)
            &&& r is Ok ==> *final(pos) == run.1 && final(lines)@ == old(lines)@ + run.2
        }),
    decreases stream.records@.len() - *old(pos),
{
    let ghost start = lines@;
    let ghost p0 = *pos as int;
    let ghost d1 = (call_depth + 1) as u16;
    let (mut ranges, file_index) = push_own_ranges(site, call_depth, lines);
    let ghost own = own_ranges(*site, call_depth);
    let ghost own_end = lines@.len();
    let mut callee_ranges = point_set_empty();
    proof {
        assert(lines@.skip(own_end as int) =~= Seq::<InlineRange>::empty());
        assert(covered(Seq::<InlineRange>::empty(), (call_depth + 1) as u16) =~= Set::<u32>::empty());
        assert forall|k: int| 0 <= k < own.len() implies (#[trigger] own[k]).call_depth == call_depth && own[k].start_rva
            < own[k].end_rva by {
            lemma_own_ranges_shape(*site, call_depth, k);
        }
    }
    loop
        invariant_except_break
            children_fits(stream.records@, stream.broken, *pos as int, site.end, call_depth),
            children_run(stream.records@, stream.broken, p0, site.end, d1) == after(
                lines@.skip(own_end as int),
                children_run(stream.records@, stream.broken, *pos as int, site.end, d1),
            ),
        invariant
            stream_wf(stream.records@),
            stream_lines_fit(stream.records@),
            *old(pos) <= *pos <= stream.records@.len(),
            start == old(lines)@,
            lines@.len() >= start.len(),
            lines@.take(start.len() as int) == start,
            own_end == start.len() + own.len(),
            own_end <= lines@.len(),
            lines@.take(own_end as int) == start + own,
            own == own_ranges(*site, call_depth),
            forall|k: int| 0 <= k < own.len() ==> (#[trigger] own[k]).call_depth == call_depth && own[k].start_rva
                < own[k].end_rva,
            points(ranges) == covered(own, call_depth),
            bounded(ranges),
            bounded(callee_ranges),
            points(callee_ranges) == covered(lines@.skip(own_end as int), (call_depth + 1) as u16),
            at_or_below(lines@.skip(own_end as int), (call_depth + 1) as u16),
            nested_below(lines@.skip(own_end as int), (call_depth + 1) as u16),
            p0 == *old(pos),
            d1 == (call_depth + 1) as u16,
            lines@.skip(own_end as int).len() > 0 ==> call_depth < u16::MAX,
            site_run(stream.records@, stream.broken, p0, *site, call_depth).1 == children_run(
                stream.records@,
                stream.broken,
                p0,
                site.end,
                d1,
            ).1,
        ensures
            children_run(stream.records@, stream.broken, p0, site.end, d1) == (
                true,
                *pos as int,
                lines@.skip(own_end as int),
            ),
        decreases stream.records@.len() - *pos,
    {
        if *pos >= stream.records.len() {
            if stream.broken {
                return Err(SymbolReadError);
            }
            proof {
                assert(lines@.skip(own_end as int) + Seq::<InlineRange>::empty() == lines@.skip(own_end as int));
            }
            break;
        }
        let ghost here = *pos as int;
        let record = &stream.records[*pos];
        *pos = *pos + 1;
        if record.index >= site.end {
            proof {
                assert(stream.records@[here] == *record);
                assert(lines@.skip(own_end as int) + Seq::<InlineRange>::empty() == lines@.skip(own_end as int));
            }
            break;
        }
        match &record.kind {
            SymbolKind::Procedure { end } => {
                proof {
                    assert(stream.records@[*pos - 1] == *record);
                }
                *pos = skip_to(&stream.records, *pos, *end);
            },
            SymbolKind::InlineSite(child) => {
                proof {
                    assert(stream.records@[*pos - 1] == *record);
                }
                let ghost before = lines@;
                let ghost children_before = lines@.skip(own_end as int);
                match process_inlinee_symbols(stream, pos, child, call_depth + 1, lines) {
                    Ok(child_ranges) => {
                        proof {
                            let child_app = lines@.skip(before.len() as int);
                            let children = lines@.skip(own_end as int);
                            assert(children == children_before + child_app) by {
                                assert(lines@ == before + child_app);
                            }
                            let cr = site_run(stream.records@, stream.broken, here + 1, *child, d1);
                            let rest = children_run(stream.records@, stream.broken, *pos as int, site.end, d1);
                            assert(child_app == cr.2);
                            assert(children_before + (cr.2 + rest.2) == children + rest.2);
                            assert(lines@.take(own_end as int) == before.take(own_end as int));
                            assert(lines@.take(start.len() as int) == before.take(start.len() as int));
                            lemma_covered_append(children_before, child_app, (call_depth + 1) as u16);
                            assert forall|k: int| 0 <= k < children.len() implies (#[trigger] children[k]).call_depth
                                >= call_depth + 1 && children[k].start_rva < children[k].end_rva by {
                                if k >= children_before.len() {
                                    assert(children[k] == child_app[k - children_before.len()]);
                                } else {
                                    assert(children[k] == children_before[k]);
                                }
                            }
                            assert forall|k: int|
                                0 <= k < children.len() && (#[trigger] children[k]).call_depth > call_depth + 1 implies range_points(
                                    children[k],
                                ).subset_of(covered(children, (children[k].call_depth - 1) as u16)) by {
                                let dd = (children[k].call_depth - 1) as u16;
                                if k >= children_before.len() {
                                    assert(children[k] == child_app[k - children_before.len()]);
                                    lemma_covered_append(children_before, child_app, dd);
                                } else {
                                    assert(children[k] == children_before[k]);
                                    lemma_covered_append(children_before, child_app, dd);
                                }
                            }
                        }
                        point_set_union(&mut callee_ranges, child_ranges);
                    },
                    Err(e) => {
                        return Err(e);
                    },
                }
            },
            SymbolKind::Other => {},
        }
    }
    let ghost children = lines@.skip(own_end as int);
    let ghost before_missing = lines@;
    let ghost missing_spec = covered(children, d1).difference(covered(own, call_depth));
    if !point_set_is_superset(&ranges, &callee_ranges) {
        let missing = point_set_difference(&callee_ranges, &ranges);
        push_missing_ranges(&missing, call_depth, site.inlinee, file_index, lines);
        proof {
            assert(points(missing) == missing_spec);
        }
        point_set_union(&mut ranges, missing);
    } else {
        proof {
            assert(missing_spec =~= Set::<u32>::empty());
            assert(lines@.skip(before_missing.len() as int) =~= Seq::<InlineRange>::empty());
            assert(covered(Seq::<InlineRange>::empty(), call_depth) =~= Set::<u32>::empty());
        }
    }
    proof {
        let fill = lines@.skip(before_missing.len() as int);
        assert(fills(fill, missing_spec, call_depth, site.inlinee, first_file(own)));
        lemma_fills_unique(
            fill,
            fill_ranges(missing_spec, call_depth, site.inlinee, first_file(own)),
            missing_spec,
            call_depth,
            site.inlinee,
            first_file(own),
        );
    }
    proof {
        let appended = lines@.skip(start.len() as int);
        let fill = lines@.skip(before_missing.len() as int);
        assert(lines@ == before_missing + fill);
        assert(before_missing == start + own + children) by {
            assert(before_missing == before_missing.take(own_end as int) + children);
        }
        assert(appended == own + children + fill);
        lemma_covered_append(own + children, fill, call_depth);
        lemma_covered_append(own, children, call_depth);
        if children.len() > 0 {
            assert(call_depth < u16::MAX);
        }
        lemma_covered_deeper(children, call_depth);
        assert(covered(children, call_depth) == Set::<u32>::empty()) by {
            assert forall|k: int| 0 <= k < children.len() implies (#[trigger] children[k]).call_depth > call_depth by {}
        }
        assert(points(ranges) =~= covered(appended, call_depth));
        assert(at_or_below(appended, call_depth)) by {
            assert forall|k: int| 0 <= k < appended.len() implies (#[trigger] appended[k]).call_depth >= call_depth
                && appended[k].start_rva < appended[k].end_rva by {
                if k < own.len() {
                    assert(appended[k] == own[k]);
                } else if k < own.len() + children.len() {
                    assert(appended[k] == children[k - own.len()]);
                } else {
                    assert(appended[k] == fill[k - own.len() - children.len()]);
                }
            }
        }
        assert(nested_below(appended, call_depth)) by {
            assert forall|k: int|
                0 <= k < appended.len() && (#[trigger] appended[k]).call_depth > call_depth implies range_points(
                    appended[k],
                ).subset_of(covered(appended, (appended[k].call_depth - 1) as u16)) by {
                let dd = (appended[k].call_depth - 1) as u16;
                lemma_covered_append(own + children, fill, dd);
                lemma_covered_append(own, children, dd);
                if k < own.len() {
                    assert(appended[k] == own[k]);
                } else if k < own.len() + children.len() {
                    let c = k - own.len();
                    assert(appended[k] == children[c]);
                    if children[c].call_depth == call_depth + 1 {
                        assert(range_points(children[c]).subset_of(covered(children, (call_depth + 1) as u16))) by {
                            assert forall|x: u32| range_points(children[c]).contains(x) implies covered(
                                children,
                                (call_depth + 1) as u16,
                            ).contains(x) by {
                                assert(children[c].call_depth == call_depth + 1 && children[c].start_rva <= x
                                    < children[c].end_rva);
                            }
                        }
                    }
                } else {
                    assert(appended[k] == fill[k - own.len() - children.len()]);
                }
            }
        }
        assert(appended.take(own.len() as int) == own);
        assert(lines@ == start + appended);
    }
    Ok(ranges)
}

/// The ranges of an inline site's own lines are at `depth` and not empty.
proof fn lemma_own_ranges_shape(site: InlineSiteRecord, depth: u16, k: int)
    requires
        site_lines_fit(site),
        0 <= k < own_ranges(site, depth).len(),
    ensures
        own_ranges(site, depth)[k].call_depth == depth,
        own_ranges(site, depth)[k].start_rva < own_ranges(site, depth)[k].end_rva,
{
    let lines = site.lines->0@;
    let kept = lines.filter(has_code());
    assert(has_code()(kept[k]));
    lemma_filter_in(lines, has_code(), k);
    let j = choose|j: int| 0 <= j < lines.len() && lines[j] == kept[k];
    assert(lines[j].length matches Some(l) ==> lines[j].start_rva + l <= u32::MAX);
}

/// Each element of a filtered sequence passes the filter and comes from the sequence.
proof fn lemma_filter_in<A>(s: Seq<A>, p: spec_fn(A) -> bool, k: int)
    requires
        0 <= k < s.filter(p).len(),
    ensures
        p(s.filter(p)[k]),
        exists|j: int| 0 <= j < s.len() && s[j] == s.filter(p)[k],
    decreases s.len(),
{
    reveal_with_fuel(Seq::filter, 1);
    if s.len() > 0 {
        lemma_filter_push(s.drop_last(), s.last(), p);
        assert(s.drop_last().push(s.last()) == s);
        if k < s.drop_last().filter(p).len() {
            lemma_filter_in(s.drop_last(), p, k);
            let j = choose|j: int| 0 <= j < s.drop_last().len() && s.drop_last()[j] == s.drop_last().filter(p)[k];
            assert(s[j] == s.drop_last()[j]);
        } else {
            assert(s[s.len() - 1] == s.filter(p)[k]);
        }
    }
}

/// Whether range `a` comes before or with range `b` by depth, then start.
pub open spec fn depth_start_le(a: InlineRange, b: InlineRange) -> bool {
    a.call_depth < b.call_depth || (a.call_depth == b.call_depth && a.start_rva <= b.start_rva)
}

/// The ranges are sorted by depth, then by start.
pub open spec fn sorted_by_depth_and_start(ranges: Seq<InlineRange>) -> bool {
    forall|i: int, j: int| 0 <= i <= j < ranges.len() ==> depth_start_le(#[trigger] ranges[i], #[trigger] ranges[j])
}

/// Whether a range is at this depth and start.
pub open spec fn at_depth_and_start(depth: u16, start: u32) -> spec_fn(InlineRange) -> bool {
    |r: InlineRange| r.call_depth == depth && r.start_rva == start
}

/// `slice::sort_by_key` on (depth, start): the standard library documents
/// this sort as stable, so ranges with the same depth and start keep their
/// order; the ranges are the same ones, rearranged.
#[verifier::external_body]
fn sort_by_depth_and_start(v: &mut Vec<InlineRange>)
    ensures
        final(v)@.to_multiset() == old(v)@.to_multiset(),
        sorted_by_depth_and_start(final(v)@),
        forall|d: u16, st: u32| #[trigger] final(v)@.filter(at_depth_and_start(d, st)) == old(v)@.filter(at_depth_and_start(d, st)),
{
    v.sort_by_key(|r| (r.call_depth, r.start_rva))
}

/// Two lists with the same ranges cover the same addresses, and the one is
/// nested when the other is.
proof fn lemma_same_ranges(s: Seq<InlineRange>, t: Seq<InlineRange>)
    requires
        s.to_multiset() == t.to_multiset(),
    ensures
        forall|d: u16| #[trigger] covered(s, d) == covered(t, d),
        nested_below(t, 0) ==> nested_below(s, 0),
        at_or_below(t, 0) ==> at_or_below(s, 0),
{
    broadcast use vstd::seq_lib::group_to_multiset_ensures;

    assert forall|i: int| 0 <= i < s.len() implies t.contains(#[trigger] s[i]) by {
        assert(s.contains(s[i]));
        assert(t.to_multiset().count(s[i]) > 0);
    }
    assert forall|j: int| 0 <= j < t.len() implies s.contains(#[trigger] t[j]) by {
        assert(t.contains(t[j]));
        assert(s.to_multiset().count(t[j]) > 0);
    }
    assert forall|d: u16| #[trigger] covered(s, d) == covered(t, d) by {
        lemma_covered_subset(s, t, d);
        lemma_covered_subset(t, s, d);
        assert(covered(s, d) =~= covered(t, d));
    }
    if nested_below(t, 0) {
        assert forall|k: int| 0 <= k < s.len() && (#[trigger] s[k]).call_depth > 0 implies range_points(s[k]).subset_of(
            covered(s, (s[k].call_depth - 1) as u16),
        ) by {
            assert(t.contains(s[k]));
            let j = choose|j: int| 0 <= j < t.len() && t[j] == s[k];
            assert(covered(s, (s[k].call_depth - 1) as u16) == covered(t, (s[k].call_depth - 1) as u16));
        }
    }
    if at_or_below(t, 0) {
        assert forall|k: int| 0 <= k < s.len() implies (#[trigger] s[k]).call_depth >= 0 && s[k].start_rva < s[k].end_rva by {
            assert(t.contains(s[k]));
            let j = choose|j: int| 0 <= j < t.len() && t[j] == s[k];
        }
    }
}

/// The inline ranges of a procedure, from the records of its module's symbol
/// stream that follow the procedure's own record, up to the first whose
/// index reaches `end_symbol_index`: the ranges of each inline site within
/// the procedure (nested procedures skipped) and of the sites nested in it,
/// as `children_run` gives them from depth 0, sorted by depth and then by
/// start, ranges with the same depth and start in the order they were found.
/// Fails when reading the stream fails before that end. The depth of every
/// inline site met must fit in a `u16` (`procedure_fits`; so it does when
/// there are fewer records than that, `lemma_procedure_fits_when_short`).
/// Each range deeper
/// than the procedure's own inline sites lies within the ranges one level
/// up.
pub fn compute_procedure_inline_ranges(stream: &SymbolStream, end_symbol_index: u32) -> (r: Result<
    Vec<InlineRange>,
    SymbolReadError,
>)
    requires
        stream_wf(stream.records@),
        stream_lines_fit(stream.records@),
        procedure_fits(stream.records@, stream.broken, 0, end_symbol_index),
    ensures
        ({
            let run = children_run(stream.records@, stream.broken, 0, end_symbol_index, 0);
            &&& (r is Ok <==> run.0)
            &&& r matches Ok(ranges) ==> {
                &&& ranges@.to_multiset() == run.2.to_multiset()
                &&& sorted_by_depth_and_start(ranges@)
                &&& forall|d: u16, st: u32| #[trigger] ranges@.filter(at_depth_and_start(d, st)) == run.2.filter(
                    at_depth_and_start(d, st),
                )
            }
        }),
        r matches Ok(ranges) ==> {
            &&& at_or_below(ranges@, 0)
            &&& nested_below(ranges@, 0)
        },
{
    let mut lines: Vec<InlineRange> = Vec::new();
    let mut pos: usize = 0;
    let ghost total = children_run(stream.records@, stream.broken, 0, end_symbol_index, 0);
    proof {
        assert(at_or_below(lines@, 0));
        assert(nested_below(lines@, 0));
        assert(lines@ + total.2 == total.2);
    }
    loop
        invariant_except_break
            procedure_fits(stream.records@, stream.broken, pos as int, end_symbol_index),
            total == after(lines@, children_run(stream.records@, stream.broken, pos as int, end_symbol_index, 0)),
        invariant
            stream_wf(stream.records@),
            stream_lines_fit(stream.records@),
            pos <= stream.records@.len(),
            at_or_below(lines@, 0),
            nested_below(lines@, 0),
            total == children_run(stream.records@, stream.broken, 0, end_symbol_index, 0),
        ensures
            total.0 && total.2 == lines@,
        decreases stream.records@.len() - pos,
    {
        if pos >= stream.records.len() {
            if stream.broken {
                return Err(SymbolReadError);
            }
            proof {
                assert(lines@ + Seq::<InlineRange>::empty() == lines@);
            }
            break;
        }
        let ghost here = pos as int;
        let record = &stream.records[pos];
        pos = pos + 1;
        if record.index >= end_symbol_index {
            proof {
                assert(stream.records@[here] == *record);
                assert(lines@ + Seq::<InlineRange>::empty() == lines@);
            }
            break;
        }
        match &record.kind {
            SymbolKind::Procedure { end } => {
                pos = skip_to(&stream.records, pos, *end);
            },
            SymbolKind::InlineSite(site) => {
                proof {
                    assert(stream.records@[pos - 1] == *record);
                }
                let ghost before = lines@;
                match process_inlinee_symbols(stream, &mut pos, site, 0, &mut lines) {
                    Ok(_) => {
                        proof {
                            let app = lines@.skip(before.len() as int);
                            assert(lines@ == before + app);
                            let rest = children_run(stream.records@, stream.broken, pos as int, end_symbol_index, 0);
                            assert(before + (app + rest.2) == lines@ + rest.2);
                            assert forall|k: int| 0 <= k < lines@.len() implies (#[trigger] lines@[k]).call_depth >= 0
                                && lines@[k].start_rva < lines@[k].end_rva by {
                                if k >= before.len() {
                                    assert(lines@[k] == app[k - before.len()]);
                                } else {
                                    assert(lines@[k] == before[k]);
                                }
                            }
                            assert forall|k: int|
                                0 <= k < lines@.len() && (#[trigger] lines@[k]).call_depth > 0 implies range_points(
                                    lines@[k],
                                ).subset_of(covered(lines@, (lines@[k].call_depth - 1) as u16)) by {
                                let dd = (lines@[k].call_depth - 1) as u16;
                                lemma_covered_append(before, app, dd);
                                if k >= before.len() {
                                    assert(lines@[k] == app[k - before.len()]);
                                } else {
                                    assert(lines@[k] == before[k]);
                                }
                            }
                        }
                    },
                    Err(e) => {
                        return Err(e);
                    },
                }
            },
            SymbolKind::Other => {},
        }
    }
    let ghost unsorted = lines@;
    sort_by_depth_and_start(&mut lines);
    proof {
        lemma_same_ranges(lines@, unsorted);
    }
    Ok(lines)
}

} // verus!
