//! `/symbolicate/v6a1`: gathering the addresses that a request asks about, and
//! building the response from what was looked up.
pub mod response_json;

use crate::error::GetSymbolsError;
use crate::looked_up_addresses::LookedUpAddresses;
use crate::shared;
use crate::v5::request_json::{Job, Lib, Request, Stack, StackFrame};
use response_json::{DebugInfo, InlineStackFrame, ModuleStatus, Response, Symbol};
use vstd::multiset::Multiset;
use vstd::prelude::*;

verus! {

/// The library that a frame of a job with memory map `mm` falls in, and the frame's address.
pub open spec fn frame_pair(mm: Seq<Lib>, f: StackFrame) -> (Lib, u32) {
    (mm[f.module_index as int], f.address)
}

/// The (library, address) pairs of some frames, in order.
pub open spec fn frames_pairs(mm: Seq<Lib>, frames: Seq<StackFrame>) -> Seq<(Lib, u32)>
    decreases frames.len(),
{
    if frames.len() == 0 {
        Seq::empty()
    } else {
        frames_pairs(mm, frames.drop_last()).push(frame_pair(mm, frames.last()))
    }
}

/// The (library, address) pairs of some stacks, in order.
pub open spec fn stacks_pairs(mm: Seq<Lib>, stacks: Seq<Stack>) -> Seq<(Lib, u32)>
    decreases stacks.len(),
{
    if stacks.len() == 0 {
        Seq::empty()
    } else {
        stacks_pairs(mm, stacks.drop_last()) + frames_pairs(mm, stacks.last().0@)
    }
}

/// The (library, address) pairs of all frames of some jobs, in order.
pub open spec fn jobs_pairs(jobs: Seq<Job>) -> Seq<(Lib, u32)>
    decreases jobs.len(),
{
    if jobs.len() == 0 {
        Seq::empty()
    } else {
        jobs_pairs(jobs.drop_last()) + stacks_pairs(jobs.last().memory_map@, jobs.last().stacks@)
    }
}

/// The addresses that `pairs` gives for `lib`, counted with repetition.
pub open spec fn addresses_of(pairs: Seq<(Lib, u32)>, lib: Lib) -> Multiset<u32>
    decreases pairs.len(),
{
    if pairs.len() == 0 {
        Multiset::empty()
    } else if pairs.last().0.same_lib(&lib) {
        addresses_of(pairs.drop_last(), lib).insert(pairs.last().1)
    } else {
        addresses_of(pairs.drop_last(), lib)
    }
}

/// Every frame of every job names a library of its job's memory map.
pub open spec fn module_indexes_in_range(jobs: Seq<Job>) -> bool {
    forall|j: int, s: int, f: int|
        0 <= j < jobs.len() && 0 <= s < jobs[j].stacks@.len() && 0 <= f < jobs[j].stacks@[s].0@.len()
            ==> #[trigger] jobs[j].stacks@[s].0@[f].module_index < jobs[j].memory_map@.len()
}

/// No two entries are for the same library.
pub open spec fn distinct_libs<V>(entries: Seq<(Lib, V)>) -> bool {
    forall|i: int, k: int|
        #![trigger entries[i], entries[k]]
        0 <= i < k < entries.len() ==> !entries[i].0.same_lib(&entries[k].0)
}

/// `entries` holds, once per library that `pairs` mentions, the addresses
/// that `pairs` gives for it.
pub open spec fn groups_addresses_of(entries: Seq<(Lib, Vec<u32>)>, pairs: Seq<(Lib, u32)>) -> bool {
    &&& distinct_libs(entries)
    &&& forall|i: int| 0 <= i < entries.len() ==> #[trigger] entries[i].1@.to_multiset() == addresses_of(pairs, entries[i].0)
    &&& forall|i: int| 0 <= i < entries.len() ==> #[trigger] entries[i].1@.len() > 0
    &&& forall|lib: Lib| #[trigger] addresses_of(pairs, lib).len() > 0 ==> exists|i: int|
        0 <= i < entries.len() && #[trigger] entries[i].0.same_lib(&lib)
}

fn clone_lib(lib: &Lib) -> (r: Lib)
    ensures
        r == *lib,
{
    Lib { debug_name: lib.debug_name.clone(), breakpad_id: lib.breakpad_id.clone() }
}

/// Records that `address` was requested in `lib`.
fn add_requested_address(
    entries: &mut Vec<(Lib, Vec<u32>)>,
    lib: &Lib,
    address: u32,
    Ghost(pairs): Ghost<Seq<(Lib, u32)>>,
)
    requires
        groups_addresses_of(old(entries)@, pairs),
    ensures
        groups_addresses_of(final(entries)@, pairs.push((*lib, address))),
{
    let ghost new_pairs = pairs.push((*lib, address));
    assert(new_pairs.drop_last() == pairs);
    let mut i: usize = 0;
    while i < entries.len()
        invariant
            i <= entries@.len(),
            groups_addresses_of(entries@, pairs),
            new_pairs == pairs.push((*lib, address)),
            forall|k: int| 0 <= k < i ==> !(#[trigger] entries@[k]).0.same_lib(lib),
        decreases entries@.len() - i,
    {
        if entries[i].0.debug_name == lib.debug_name && entries[i].0.breakpad_id == lib.breakpad_id {
            let ghost before = entries@;
            entries[i].1.push(address);
            proof {
                assert(new_pairs.drop_last() == pairs);
                assert(entries@[i as int].0 == before[i as int].0);
                assert forall|k: int| 0 <= k < entries@.len() implies #[trigger] entries@[k].1@.to_multiset()
                    == addresses_of(new_pairs, entries@[k].0) by {
                    if k == i {
                        assert(entries@[k].1@ == before[k].1@.push(address));
                        before[k].1@.to_multiset_ensures();
                    } else {
                        assert(entries@[k] == before[k]);
                        if entries@[k].0.same_lib(lib) {
                            assert(before[k].0.same_lib(&before[i as int].0));
                        }
                    }
                }
                assert forall|k: int| 0 <= k < entries@.len() implies #[trigger] entries@[k].1@.len() > 0 by {
                    assert(before[k].1@.len() > 0);
                }
                assert forall|other: Lib| #[trigger] addresses_of(new_pairs, other).len() > 0 implies exists|k: int|
                    0 <= k < entries@.len() && #[trigger] entries@[k].0.same_lib(&other) by {
                    if other.same_lib(lib) {
                        assert(entries@[i as int].0.same_lib(&other));
                    } else {
                        assert(addresses_of(pairs, other).len() > 0);
                        let k = choose|k: int| 0 <= k < before.len() && #[trigger] before[k].0.same_lib(&other);
                        assert(entries@[k].0 == before[k].0);
                    }
                }
                assert forall|a: int, b: int| 0 <= a < b < entries@.len() implies !entries@[a].0.same_lib(&entries@[b].0) by {
                    assert(entries@[a].0 == before[a].0 && entries@[b].0 == before[b].0);
                    assert(!before[a].0.same_lib(&before[b].0));
                }
            }
            return;
        }
        i = i + 1;
    }
    let ghost before = entries@;
    let mut addresses: Vec<u32> = Vec::new();
    addresses.push(address);
    entries.push((clone_lib(lib), addresses));
    proof {
        assert(!(addresses_of(pairs, *lib).len() > 0)) by {
            if addresses_of(pairs, *lib).len() > 0 {
                let k = choose|k: int| 0 <= k < before.len() && #[trigger] before[k].0.same_lib(lib);
                assert(!before[k].0.same_lib(lib));
            }
        }
        assert(addresses_of(pairs, *lib) == Multiset::<u32>::empty());
        assert forall|k: int| 0 <= k < entries@.len() implies #[trigger] entries@[k].1@.to_multiset()
            == addresses_of(new_pairs, entries@[k].0) by {
            if k == before.len() {
                assert(entries@[k].1@ == seq![address]);
                assert(seq![address] == Seq::<u32>::empty().push(address));
                Seq::<u32>::empty().to_multiset_ensures();
                assert(Seq::<u32>::empty().to_multiset() =~= Multiset::empty());
            } else {
                assert(entries@[k] == before[k]);
                assert(!before[k].0.same_lib(lib));
            }
        }
        assert forall|other: Lib| #[trigger] addresses_of(new_pairs, other).len() > 0 implies exists|k: int|
            0 <= k < entries@.len() && #[trigger] entries@[k].0.same_lib(&other) by {
            if other.same_lib(lib) {
                assert(entries@[before.len() as int].0.same_lib(&other));
            } else {
                assert(addresses_of(pairs, other).len() > 0);
                let k = choose|k: int| 0 <= k < before.len() && #[trigger] before[k].0.same_lib(&other);
                assert(entries@[k].0 == before[k].0);
            }
        }
        assert forall|a: int, b: int| 0 <= a < b < entries@.len() implies !entries@[a].0.same_lib(&entries@[b].0) by {
            assert(entries@[a].0 == before[a].0);
            if b < before.len() {
                assert(entries@[b].0 == before[b].0);
                assert(!before[a].0.same_lib(&before[b].0));
            } else {
                assert(!before[a].0.same_lib(lib));
            }
        }
        assert forall|k: int| 0 <= k < entries@.len() implies #[trigger] entries@[k].1@.len() > 0 by {
            if k < before.len() {
                assert(entries@[k] == before[k]);
            }
        }
    }
}

/// Groups the addresses of all frames of the request by library: one entry per
/// library that a frame falls in, holding the addresses of those frames. Fails
/// when a frame names a library beyond its job's memory map.
pub fn gather_requested_addresses(request: &Request) -> (r: Result<Vec<(Lib, Vec<u32>)>, GetSymbolsError>)
    ensures
        r is Ok <==> module_indexes_in_range(request.spec_jobs()),
        r matches Ok(entries) ==> groups_addresses_of(entries@, jobs_pairs(request.spec_jobs())),
        r matches Err(e) ==> (e matches GetSymbolsError::ParseRequestErrorContents(m)
            && m@ == "Stack frame module index beyond the memoryMap"@),
{
    let ghost jobs = request.spec_jobs();
    let mut entries: Vec<(Lib, Vec<u32>)> = Vec::new();
    let ghost mut seen: Seq<(Lib, u32)> = Seq::empty();
    let n = request.job_count();
    let mut j: usize = 0;
    while j < n
        invariant
            n == jobs.len(),
            jobs == request.spec_jobs(),
            j <= n,
            seen == jobs_pairs(jobs.take(j as int)),
            groups_addresses_of(entries@, seen),
            module_indexes_in_range(jobs.take(j as int)),
        decreases n - j,
    {
        let job = request.job(j);
        let ghost mm = job.memory_map@;
        let mut s: usize = 0;
        while s < job.stacks.len()
            invariant
                jobs == request.spec_jobs(),
                j < jobs.len(),
                *job == jobs[j as int],
                mm == job.memory_map@,
                s <= job.stacks@.len(),
                seen == jobs_pairs(jobs.take(j as int)) + stacks_pairs(mm, job.stacks@.take(s as int)),
                groups_addresses_of(entries@, seen),
                module_indexes_in_range(jobs.take(j as int)),
                forall|s2: int, f: int| 0 <= s2 < s && 0 <= f < job.stacks@[s2].0@.len()
                    ==> #[trigger] job.stacks@[s2].0@[f].module_index < mm.len(),
            decreases job.stacks@.len() - s,
        {
            let stack = &job.stacks[s];
            let mut f: usize = 0;
            while f < stack.0.len()
                invariant
                    jobs == request.spec_jobs(),
                    j < jobs.len(),
                    *job == jobs[j as int],
                    mm == job.memory_map@,
                    s < job.stacks@.len(),
                    *stack == job.stacks@[s as int],
                    f <= stack.0@.len(),
                    seen == jobs_pairs(jobs.take(j as int)) + stacks_pairs(mm, job.stacks@.take(s as int))
                        + frames_pairs(mm, stack.0@.take(f as int)),
                    groups_addresses_of(entries@, seen),
                    module_indexes_in_range(jobs.take(j as int)),
                    forall|s2: int, f2: int| 0 <= s2 < s && 0 <= f2 < job.stacks@[s2].0@.len()
                        ==> #[trigger] job.stacks@[s2].0@[f2].module_index < mm.len(),
                    forall|f2: int| 0 <= f2 < f ==> #[trigger] stack.0@[f2].module_index < mm.len(),
                decreases stack.0@.len() - f,
            {
                let frame = &stack.0[f];
                let index = frame.module_index as usize;
                if index >= job.memory_map.len() {
                    assert(jobs[j as int].stacks@[s as int].0@[f as int].module_index >= jobs[j as int].memory_map@.len());
                    return Err(GetSymbolsError::ParseRequestErrorContents(
                        "Stack frame module index beyond the memoryMap",
                    ));
                }
                let lib = &job.memory_map[index];
                proof {
                    assert(stack.0@.take(f + 1).drop_last() == stack.0@.take(f as int));
                    assert(frames_pairs(mm, stack.0@.take(f + 1)) == frames_pairs(mm, stack.0@.take(f as int)).push(
                        frame_pair(mm, *frame),
                    ));
                }
                add_requested_address(&mut entries, lib, frame.address, Ghost(seen));
                proof {
                    seen = seen.push((*lib, frame.address));
                    assert(seen == jobs_pairs(jobs.take(j as int)) + stacks_pairs(mm, job.stacks@.take(s as int))
                        + frames_pairs(mm, stack.0@.take(f + 1)));
                }
                f = f + 1;
            }
            proof {
                assert(stack.0@.take(f as int) == stack.0@);
                assert(job.stacks@.take(s + 1).drop_last() == job.stacks@.take(s as int));
                assert(stacks_pairs(mm, job.stacks@.take(s + 1)) == stacks_pairs(mm, job.stacks@.take(s as int))
                    + frames_pairs(mm, stack.0@));
                assert(seen == jobs_pairs(jobs.take(j as int)) + stacks_pairs(mm, job.stacks@.take(s + 1)));
            }
            s = s + 1;
        }
        proof {
            assert(job.stacks@.take(s as int) == job.stacks@);
            assert(jobs.take(j + 1).drop_last() == jobs.take(j as int));
            assert(jobs_pairs(jobs.take(j + 1)) == jobs_pairs(jobs.take(j as int)) + stacks_pairs(mm, job.stacks@));
            assert(module_indexes_in_range(jobs.take(j + 1))) by {
                assert forall|j2: int, s2: int, f2: int|
                    0 <= j2 < j + 1 && 0 <= s2 < jobs.take(j + 1)[j2].stacks@.len() && 0 <= f2 < jobs.take(j + 1)[j2].stacks@[s2].0@.len()
                    implies #[trigger] jobs.take(j + 1)[j2].stacks@[s2].0@[f2].module_index < jobs.take(j + 1)[j2].memory_map@.len() by {
                    if j2 < j {
                        assert(jobs.take(j as int)[j2] == jobs.take(j + 1)[j2]);
                        assert(jobs.take(j as int)[j2].stacks@[s2].0@[f2].module_index < jobs.take(j as int)[j2].memory_map@.len());
                    } else {
                        assert(job.stacks@[s2].0@[f2].module_index < mm.len());
                    }
                }
            }
        }
        j = j + 1;
    }
    assert(jobs.take(j as int) == jobs);
    Ok(entries)
}

/// What was looked up for one library: its results, or the error met.
pub type LibResult = Result<LookedUpAddresses, GetSymbolsError>;

/// Entry `i` is for `lib`.
pub open spec fn lib_at<V>(entries: Seq<(Lib, V)>, lib: Lib, i: int) -> bool {
    0 <= i < entries.len() && entries[i].0.same_lib(&lib)
}

/// What the entries hold for `lib`, if they hold anything.
pub open spec fn entry_for<V>(entries: Seq<(Lib, V)>, lib: Lib) -> Option<V> {
    if exists|i: int| #[trigger] lib_at(entries, lib, i) {
        Some(entries[choose|i: int| #[trigger] lib_at(entries, lib, i)].1)
    } else {
        None
    }
}

/// The status reported for a library of the memory map.
pub open spec fn status_for(st: Option<ModuleStatus>, e: Option<LibResult>) -> bool {
    match e {
        None => st is None,
        Some(Ok(l)) => (st matches Some(m) && m.found && m.symbol_count == l.symbol_count && m.errors@.len() == 0),
        Some(Err(err)) => (st matches Some(m) && !m.found && m.symbol_count == 0 && m.errors@.len() == 1
            && m.errors@[0].reports(&err)),
    }
}

/// An inline frame of the response reports an inline frame of the debug info.
pub open spec fn inline_frame_for(o: InlineStackFrame, i: shared::InlineStackFrame) -> bool {
    &&& o.function_name == i.function
    &&& o.file_path == i.file_path
    &&& o.line_number == i.line_number
}

/// The debug info reported for a symbol, from its inline frames if it has them.
pub open spec fn debug_info_for(d: Option<DebugInfo>, frames: Option<Vec<shared::InlineStackFrame>>) -> bool {
    match frames {
        None => d is None,
        Some(fs) => (d matches Some(di) && di.inline_stack@.len() == fs@.len() && forall|k: int|
            0 <= k < fs@.len() ==> inline_frame_for(#[trigger] di.inline_stack@[k], fs@[k])),
    }
}

/// The symbol reported for `address`, given what was looked up for its library.
pub open spec fn symbol_for(sym: Option<Symbol>, address: u32, e: Option<LibResult>) -> bool {
    match e {
        Some(Ok(l)) => match l.address_results@[address] {
            Some(r) => (sym matches Some(y) && y.function == r.symbol_name && y.function_offset == address
                - r.symbol_address && debug_info_for(y.debug_info, r.inline_frames)),
            None => sym is None,
        },
        _ => sym is None,
    }
}

/// A frame of the response answers the frame at position `index` of a stack.
pub open spec fn frame_for(
    out: response_json::StackFrame,
    index: int,
    f: StackFrame,
    mm: Seq<Lib>,
    looked_up: Seq<(Lib, LibResult)>,
) -> bool {
    &&& out.frame == index as u32
    &&& out.module_offset == f.address
    &&& out.module == mm[f.module_index as int].debug_name
    &&& symbol_for(out.symbol, f.address, entry_for(looked_up, mm[f.module_index as int]))
}

/// A stack of the response answers a requested stack.
pub open spec fn stack_for(out: response_json::Stack, s: Stack, mm: Seq<Lib>, looked_up: Seq<(Lib, LibResult)>) -> bool {
    &&& out.0@.len() == s.0@.len()
    &&& forall|k: int| 0 <= k < s.0@.len() ==> frame_for(#[trigger] out.0@[k], k, s.0@[k], mm, looked_up)
}

/// A result of the response answers a job.
pub open spec fn result_for(out: response_json::Result, job: Job, looked_up: Seq<(Lib, LibResult)>) -> bool {
    &&& out.module_status@.len() == job.memory_map@.len()
    &&& forall|m: int| 0 <= m < job.memory_map@.len() ==> status_for(
        #[trigger] out.module_status@[m],
        entry_for(looked_up, job.memory_map@[m]),
    )
    &&& out.stacks@.len() == job.stacks@.len()
    &&& forall|s: int| 0 <= s < job.stacks@.len() ==> stack_for(#[trigger] out.stacks@[s], job.stacks@[s], job.memory_map@, looked_up)
}

/// Every frame whose library was looked up has an entry in the results, and
/// the symbol found for it starts at or below it.
pub open spec fn lookups_cover(jobs: Seq<Job>, looked_up: Seq<(Lib, LibResult)>) -> bool {
    forall|j: int, s: int, f: int|
        0 <= j < jobs.len() && 0 <= s < jobs[j].stacks@.len() && 0 <= f < jobs[j].stacks@[s].0@.len()
            ==> #[trigger] frame_is_covered(jobs[j].stacks@[s].0@[f], jobs[j].memory_map@, looked_up)
}

/// The results for the library of `f` have an entry for its address, and the
/// symbol found there starts at or below it.
pub open spec fn frame_is_covered(f: StackFrame, mm: Seq<Lib>, looked_up: Seq<(Lib, LibResult)>) -> bool {
    entry_for(looked_up, mm[f.module_index as int]) matches Some(Ok(l)) ==> {
        &&& l.address_results@.contains_key(f.address)
        &&& l.address_results@[f.address] matches Some(r) ==> r.symbol_address <= f.address
    }
}

/// With no library twice, the entry found at `i` is what the entries hold for `lib`.
proof fn lemma_entry_at<V>(entries: Seq<(Lib, V)>, lib: Lib, i: int)
    requires
        distinct_libs(entries),
        lib_at(entries, lib, i),
    ensures
        entry_for(entries, lib) == Some(entries[i].1),
{
    let k = choose|k: int| #[trigger] lib_at(entries, lib, k);
    if k != i {
        if k < i {
            assert(!entries[k].0.same_lib(&entries[i].0));
        } else {
            assert(!entries[i].0.same_lib(&entries[k].0));
        }
    }
}

/// Finds the entry for `lib`.
fn find_lib(entries: &Vec<(Lib, LibResult)>, lib: &Lib) -> (r: Option<usize>)
    ensures
        match r {
            Some(i) => lib_at(entries@, *lib, i as int),
            None => forall|i: int| !#[trigger] lib_at(entries@, *lib, i),
        },
{
    let mut i: usize = 0;
    while i < entries.len()
        invariant
            i <= entries@.len(),
            forall|k: int| 0 <= k < i ==> !#[trigger] lib_at(entries@, *lib, k),
        decreases entries@.len() - i,
    {
        if entries[i].0.debug_name == lib.debug_name && entries[i].0.breakpad_id == lib.breakpad_id {
            return Some(i);
        }
        i = i + 1;
    }
    None
}

fn clone_opt_string(s: &Option<String>) -> (r: Option<String>)
    ensures
        r == *s,
{
    match s {
        Some(s) => Some(s.clone()),
        None => None,
    }
}

/// The response's inline frames for the inline frames of the debug info.
fn inline_stack_for(frames: &Vec<shared::InlineStackFrame>) -> (r: Vec<InlineStackFrame>)
    ensures
        r@.len() == frames@.len(),
        forall|k: int| 0 <= k < frames@.len() ==> inline_frame_for(#[trigger] r@[k], frames@[k]),
{
    let mut r: Vec<InlineStackFrame> = Vec::new();
    let mut k: usize = 0;
    while k < frames.len()
        invariant
            k <= frames@.len(),
            r@.len() == k,
            forall|t: int| 0 <= t < k ==> inline_frame_for(#[trigger] r@[t], frames@[t]),
        decreases frames@.len() - k,
    {
        let f = &frames[k];
        r.push(
            InlineStackFrame {
                function_name: clone_opt_string(&f.function),
                file_path: clone_opt_string(&f.file_path),
                line_number: f.line_number,
            },
        );
        k = k + 1;
    }
    r
}

/// For each library of a memory map, the position of its results among the
/// looked-up entries, where they were found.
pub open spec fn symbols_by_module_index_for(
    by_index: Seq<Option<usize>>,
    mm: Seq<Lib>,
    looked_up: Seq<(Lib, LibResult)>,
) -> bool {
    &&& by_index.len() == mm.len()
    &&& forall|m: int| 0 <= m < mm.len() ==> match #[trigger] by_index[m] {
        Some(i) => lib_at(looked_up, mm[m], i as int) && looked_up[i as int].1 is Ok,
        None => !(entry_for(looked_up, mm[m]) matches Some(Ok(_))),
    }
}

fn response_frame_for_request_frame(
    frame: &StackFrame,
    frame_index: u32,
    memory_map: &Vec<Lib>,
    symbols_by_module_index: &Vec<Option<usize>>,
    looked_up: &Vec<(Lib, LibResult)>,
) -> (r: response_json::StackFrame)
    requires
        distinct_libs(looked_up@),
        (frame.module_index as int) < memory_map@.len(),
        symbols_by_module_index_for(symbols_by_module_index@, memory_map@, looked_up@),
        frame_is_covered(*frame, memory_map@, looked_up@),
    ensures
        r.frame == frame_index,
        r.module_offset == frame.address,
        r.module == memory_map@[frame.module_index as int].debug_name,
        symbol_for(r.symbol, frame.address, entry_for(looked_up@, memory_map@[frame.module_index as int])),
{
    let index = frame.module_index as usize;
    let ghost lib = memory_map@[index as int];
    let symbol = match symbols_by_module_index[index] {
        Some(i) => {
            proof {
                lemma_entry_at(looked_up@, lib, i as int);
            }
            match &looked_up[i].1 {
                Ok(symbols) => match symbols.address_results.get(&frame.address) {
                    Some(Some(address_result)) => {
                        let debug_info = match &address_result.inline_frames {
                            Some(frames) => Some(DebugInfo { inline_stack: inline_stack_for(frames) }),
                            None => None,
                        };
                        Some(
                            Symbol {
                                function: address_result.symbol_name.clone(),
                                function_offset: frame.address - address_result.symbol_address,
                                debug_info,
                            },
                        )
                    },
                    Some(None) => None,
                    None => {
                        // The results of a library hold every address asked of it.
                        assert(false);
                        None
                    },
                },
                Err(_) => None,
            }
        },
        None => None,
    };
    response_json::StackFrame {
        frame: frame_index,
        module_offset: frame.address,
        module: memory_map[index].debug_name.clone(),
        symbol,
    }
}

fn response_stack_for_request_stack(
    stack: &Stack,
    memory_map: &Vec<Lib>,
    symbols_by_module_index: &Vec<Option<usize>>,
    looked_up: &Vec<(Lib, LibResult)>,
) -> (r: response_json::Stack)
    requires
        distinct_libs(looked_up@),
        symbols_by_module_index_for(symbols_by_module_index@, memory_map@, looked_up@),
        forall|f: int| 0 <= f < stack.0@.len() ==> (#[trigger] stack.0@[f]).module_index < memory_map@.len(),
        forall|f: int| 0 <= f < stack.0@.len() ==> frame_is_covered(#[trigger] stack.0@[f], memory_map@, looked_up@),
    ensures
        stack_for(r, *stack, memory_map@, looked_up@),
{
    let mut frames: Vec<response_json::StackFrame> = Vec::new();
    let mut k: usize = 0;
    while k < stack.0.len()
        invariant
            k <= stack.0@.len(),
            frames@.len() == k,
            distinct_libs(looked_up@),
            symbols_by_module_index_for(symbols_by_module_index@, memory_map@, looked_up@),
            forall|f: int| 0 <= f < stack.0@.len() ==> (#[trigger] stack.0@[f]).module_index < memory_map@.len(),
            forall|f: int| 0 <= f < stack.0@.len() ==> frame_is_covered(#[trigger] stack.0@[f], memory_map@, looked_up@),
            forall|t: int| 0 <= t < k ==> frame_for(#[trigger] frames@[t], t, stack.0@[t], memory_map@, looked_up@),
        decreases stack.0@.len() - k,
    {
        let frame = &stack.0[k];
        assert(frame.module_index < memory_map@.len());
        assert(frame_is_covered(*frame, memory_map@, looked_up@));
        let out = response_frame_for_request_frame(
            frame,
            k as u32,
            memory_map,
            symbols_by_module_index,
            looked_up,
        );
        frames.push(out);
        k = k + 1;
    }
    response_json::Stack(frames)
}

fn result_for_job(job: &Job, looked_up: &Vec<(Lib, LibResult)>) -> (r: response_json::Result)
    requires
        distinct_libs(looked_up@),
        forall|s: int, f: int| 0 <= s < job.stacks@.len() && 0 <= f < job.stacks@[s].0@.len()
            ==> #[trigger] job.stacks@[s].0@[f].module_index < job.memory_map@.len(),
        forall|s: int, f: int| 0 <= s < job.stacks@.len() && 0 <= f < job.stacks@[s].0@.len()
            ==> frame_is_covered(#[trigger] job.stacks@[s].0@[f], job.memory_map@, looked_up@),
    ensures
        result_for(r, *job, looked_up@),
{
    let mut symbols_by_module_index: Vec<Option<usize>> = Vec::new();
    let mut module_status: Vec<Option<ModuleStatus>> = Vec::new();
    let mut m: usize = 0;
    while m < job.memory_map.len()
        invariant
            m <= job.memory_map@.len(),
            distinct_libs(looked_up@),
            symbols_by_module_index@.len() == m,
            module_status@.len() == m,
            forall|t: int| 0 <= t < m ==> match #[trigger] symbols_by_module_index@[t] {
                Some(i) => lib_at(looked_up@, job.memory_map@[t], i as int) && looked_up@[i as int].1 is Ok,
                None => !(entry_for(looked_up@, job.memory_map@[t]) matches Some(Ok(_))),
            },
            forall|t: int| 0 <= t < m ==> status_for(
                #[trigger] module_status@[t],
                entry_for(looked_up@, job.memory_map@[t]),
            ),
        decreases job.memory_map@.len() - m,
    {
        let lib = &job.memory_map[m];
        match find_lib(looked_up, lib) {
            Some(i) => {
                proof {
                    lemma_entry_at(looked_up@, *lib, i as int);
                }
                match &looked_up[i].1 {
                    Ok(symbols) => {
                        symbols_by_module_index.push(Some(i));
                        module_status.push(
                            Some(ModuleStatus { found: true, symbol_count: symbols.symbol_count, errors: Vec::new() }),
                        );
                    },
                    Err(err) => {
                        symbols_by_module_index.push(None);
                        let mut errors = Vec::new();
                        errors.push(response_json::Error::from_symbols_error(err));
                        module_status.push(Some(ModuleStatus { found: false, symbol_count: 0, errors }));
                    },
                }
            },
            None => {
                assert(!exists|i: int| #[trigger] lib_at(looked_up@, *lib, i));
                symbols_by_module_index.push(None);
                module_status.push(None);
            },
        }
        m = m + 1;
    }
    let mut stacks: Vec<response_json::Stack> = Vec::new();
    let mut s: usize = 0;
    while s < job.stacks.len()
        invariant
            s <= job.stacks@.len(),
            stacks@.len() == s,
            distinct_libs(looked_up@),
            symbols_by_module_index_for(symbols_by_module_index@, job.memory_map@, looked_up@),
            forall|s2: int, f: int| 0 <= s2 < job.stacks@.len() && 0 <= f < job.stacks@[s2].0@.len()
                ==> #[trigger] job.stacks@[s2].0@[f].module_index < job.memory_map@.len(),
            forall|s2: int, f: int| 0 <= s2 < job.stacks@.len() && 0 <= f < job.stacks@[s2].0@.len()
                ==> frame_is_covered(#[trigger] job.stacks@[s2].0@[f], job.memory_map@, looked_up@),
            forall|t: int| 0 <= t < s ==> stack_for(#[trigger] stacks@[t], job.stacks@[t], job.memory_map@, looked_up@),
        decreases job.stacks@.len() - s,
    {
        let stack = &job.stacks[s];
        assert forall|f: int| 0 <= f < stack.0@.len() implies (#[trigger] stack.0@[f]).module_index < job.memory_map@.len() by {
            assert(job.stacks@[s as int].0@[f].module_index < job.memory_map@.len());
        }
        assert forall|f: int| 0 <= f < stack.0@.len() implies frame_is_covered(#[trigger] stack.0@[f], job.memory_map@, looked_up@) by {
            assert(frame_is_covered(job.stacks@[s as int].0@[f], job.memory_map@, looked_up@));
        }
        stacks.push(response_stack_for_request_stack(stack, &job.memory_map, &symbols_by_module_index, looked_up));
        s = s + 1;
    }
    response_json::Result { stacks, module_status }
}

/// Builds the response to `request` from what was looked up for each library:
/// per job, the status of each library of its memory map and, per frame, the
/// symbol found for its address.
pub fn create_response(request: &Request, symbolicated_addresses: Vec<(Lib, LibResult)>) -> (r: Response)
    requires
        distinct_libs(symbolicated_addresses@),
        module_indexes_in_range(request.spec_jobs()),
        lookups_cover(request.spec_jobs(), symbolicated_addresses@),
    ensures
        r.results@.len() == request.spec_jobs().len(),
        forall|j: int| 0 <= j < request.spec_jobs().len() ==> result_for(
            #[trigger] r.results@[j],
            request.spec_jobs()[j],
            symbolicated_addresses@,
        ),
{
    let ghost jobs = request.spec_jobs();
    let mut results: Vec<response_json::Result> = Vec::new();
    let n = request.job_count();
    let mut j: usize = 0;
    while j < n
        invariant
            n == jobs.len(),
            jobs == request.spec_jobs(),
            j <= n,
            results@.len() == j,
            distinct_libs(symbolicated_addresses@),
            module_indexes_in_range(jobs),
            lookups_cover(jobs, symbolicated_addresses@),
            forall|t: int| 0 <= t < j ==> result_for(#[trigger] results@[t], jobs[t], symbolicated_addresses@),
        decreases n - j,
    {
        let job = request.job(j);
        assert forall|s: int, f: int| 0 <= s < job.stacks@.len() && 0 <= f < job.stacks@[s].0@.len()
            implies #[trigger] job.stacks@[s].0@[f].module_index < job.memory_map@.len() by {
            assert(jobs[j as int].stacks@[s].0@[f].module_index < jobs[j as int].memory_map@.len());
        }
        assert forall|s: int, f: int| 0 <= s < job.stacks@.len() && 0 <= f < job.stacks@[s].0@.len()
            implies frame_is_covered(#[trigger] job.stacks@[s].0@[f], job.memory_map@, symbolicated_addresses@) by {
            assert(frame_is_covered(jobs[j as int].stacks@[s].0@[f], jobs[j as int].memory_map@, symbolicated_addresses@));
        }
        results.push(result_for_job(job, &symbolicated_addresses));
        j = j + 1;
    }
    Response { results }
}

/// Whether the entries name each library at most once.
fn libs_are_distinct(entries: &Vec<(Lib, LibResult)>) -> (r: bool)
    ensures
        r == distinct_libs(entries@),
{
    let mut k: usize = 1;
    while k < entries.len()
        invariant
            1 <= k,
            k <= entries@.len() || entries@.len() == 0,
            forall|a: int, b: int|
                #![trigger entries@[a], entries@[b]]
                0 <= a < b < k && b < entries@.len() ==> !entries@[a].0.same_lib(&entries@[b].0),
        decreases entries@.len() - k,
    {
        let mut a: usize = 0;
        while a < k
            invariant
                a <= k < entries@.len(),
                forall|x: int, y: int|
                    #![trigger entries@[x], entries@[y]]
                    0 <= x < y < k ==> !entries@[x].0.same_lib(&entries@[y].0),
                forall|x: int| #![trigger entries@[x]] 0 <= x < a ==> !entries@[x].0.same_lib(&entries@[k as int].0),
            decreases k - a,
        {
            if entries[a].0.debug_name == entries[k].0.debug_name && entries[a].0.breakpad_id
                == entries[k].0.breakpad_id {
                return false;
            }
            a = a + 1;
        }
        k = k + 1;
    }
    true
}

/// Whether the results looked up for the libraries of a request meet what
/// `create_response` asks of them: no library twice, every frame within its
/// job's memory map, and every frame of a library with results covered by them.
pub fn lookups_answer_request(request: &Request, looked_up: &Vec<(Lib, LibResult)>) -> (r: bool)
    ensures
        r == (distinct_libs(looked_up@) && module_indexes_in_range(request.spec_jobs()) && lookups_cover(
            request.spec_jobs(),
            looked_up@,
        )),
{
    if !libs_are_distinct(looked_up) {
        return false;
    }
    let ghost jobs = request.spec_jobs();
    let n = request.job_count();
    let mut j: usize = 0;
    while j < n
        invariant
            n == jobs.len(),
            jobs == request.spec_jobs(),
            j <= n,
            distinct_libs(looked_up@),
            forall|j2: int, s: int, f: int|
                0 <= j2 < j && 0 <= s < jobs[j2].stacks@.len() && 0 <= f < jobs[j2].stacks@[s].0@.len()
                    ==> #[trigger] jobs[j2].stacks@[s].0@[f].module_index < jobs[j2].memory_map@.len()
                    && frame_is_covered(jobs[j2].stacks@[s].0@[f], jobs[j2].memory_map@, looked_up@),
        decreases n - j,
    {
        let job = request.job(j);
        let mut s: usize = 0;
        while s < job.stacks.len()
            invariant
                n == jobs.len(),
                jobs == request.spec_jobs(),
                j < n,
                *job == jobs[j as int],
                s <= job.stacks@.len(),
                distinct_libs(looked_up@),
                forall|j2: int, s2: int, f: int|
                    0 <= j2 < j && 0 <= s2 < jobs[j2].stacks@.len() && 0 <= f < jobs[j2].stacks@[s2].0@.len()
                        ==> #[trigger] jobs[j2].stacks@[s2].0@[f].module_index < jobs[j2].memory_map@.len()
                        && frame_is_covered(jobs[j2].stacks@[s2].0@[f], jobs[j2].memory_map@, looked_up@),
                forall|s2: int, f: int|
                    0 <= s2 < s && 0 <= f < job.stacks@[s2].0@.len()
                        ==> #[trigger] job.stacks@[s2].0@[f].module_index < job.memory_map@.len()
                        && frame_is_covered(job.stacks@[s2].0@[f], job.memory_map@, looked_up@),
            decreases job.stacks@.len() - s,
        {
            let stack = &job.stacks[s];
            let mut f: usize = 0;
            while f < stack.0.len()
                invariant
                    n == jobs.len(),
                    jobs == request.spec_jobs(),
                    j < n,
                    *job == jobs[j as int],
                    s < job.stacks@.len(),
                    *stack == job.stacks@[s as int],
                    f <= stack.0@.len(),
                    distinct_libs(looked_up@),
                    forall|j2: int, s2: int, f2: int|
                        0 <= j2 < j && 0 <= s2 < jobs[j2].stacks@.len() && 0 <= f2 < jobs[j2].stacks@[s2].0@.len()
                            ==> #[trigger] jobs[j2].stacks@[s2].0@[f2].module_index < jobs[j2].memory_map@.len()
                            && frame_is_covered(jobs[j2].stacks@[s2].0@[f2], jobs[j2].memory_map@, looked_up@),
                    forall|s2: int, f2: int|
                        0 <= s2 < s && 0 <= f2 < job.stacks@[s2].0@.len()
                            ==> #[trigger] job.stacks@[s2].0@[f2].module_index < job.memory_map@.len()
                            && frame_is_covered(job.stacks@[s2].0@[f2], job.memory_map@, looked_up@),
                    forall|f2: int|
                        0 <= f2 < f ==> #[trigger] stack.0@[f2].module_index < job.memory_map@.len()
                            && frame_is_covered(stack.0@[f2], job.memory_map@, looked_up@),
                decreases stack.0@.len() - f,
            {
                let frame = &stack.0[f];
                let index = frame.module_index as usize;
                if index >= job.memory_map.len() {
                    assert(!module_indexes_in_range(jobs)) by {
                        assert(jobs[j as int].stacks@[s as int].0@[f as int].module_index
                            >= jobs[j as int].memory_map@.len());
                    }
                    return false;
                }
                let lib = &job.memory_map[index];
                let ghost entry = entry_for(looked_up@, *lib);
                match find_lib(looked_up, lib) {
                    Some(i) => {
                        proof {
                            lemma_entry_at(looked_up@, *lib, i as int);
                        }
                        match &looked_up[i].1 {
                            Ok(symbols) => match symbols.address_results.get(&frame.address) {
                                Some(Some(address_result)) => {
                                    if address_result.symbol_address > frame.address {
                                        assert(!lookups_cover(jobs, looked_up@)) by {
                                            assert(!frame_is_covered(
                                                jobs[j as int].stacks@[s as int].0@[f as int],
                                                jobs[j as int].memory_map@,
                                                looked_up@,
                                            ));
                                        }
                                        return false;
                                    }
                                },
                                Some(None) => {},
                                None => {
                                    assert(!lookups_cover(jobs, looked_up@)) by {
                                        assert(!frame_is_covered(
                                            jobs[j as int].stacks@[s as int].0@[f as int],
                                            jobs[j as int].memory_map@,
                                            looked_up@,
                                        ));
                                    }
                                    return false;
                                },
                            },
                            Err(_) => {},
                        }
                    },
                    None => {
                        assert(!exists|k: int| #[trigger] lib_at(looked_up@, *lib, k));
                    },
                }
                f = f + 1;
            }
            s = s + 1;
        }
        j = j + 1;
    }
    proof {
        assert forall|j2: int, s2: int, f2: int|
            0 <= j2 < jobs.len() && 0 <= s2 < jobs[j2].stacks@.len() && 0 <= f2 < jobs[j2].stacks@[s2].0@.len()
            implies #[trigger] frame_is_covered(jobs[j2].stacks@[s2].0@[f2], jobs[j2].memory_map@, looked_up@) by {
            assert(jobs[j2].stacks@[s2].0@[f2].module_index < jobs[j2].memory_map@.len());
        }
    }
    true
}

} // verus!
