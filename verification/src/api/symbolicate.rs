//! The `/symbolicate/v5` query as a state machine: it gathers the addresses
//! that the request asks about by library, asks for the symbol map of one
//! library at a time, and keeps per-library results and statistics. Looking
//! addresses up in a symbol map is the caller's part.
use crate::api::request_json::{Job, Lib, Request, RequestFrame, RequestStack};
use crate::api::{debug_id_of_breakpad, to_debug_id, valid_breakpad_id, Error, InvalidBreakpadId, ModuleLoadOutcome, ModuleStat, SymbolicateStats};
use crate::text::str_eq;
use debugid::DebugId;
use vstd::multiset::Multiset;
use vstd::prelude::*;

verus! {

/// The library that a frame of a job with memory map `mm` falls in, and the frame's address.
pub open spec fn frame_pair(mm: Seq<Lib>, f: RequestFrame) -> (Lib, u32) {
    (mm[f.module_index as int], f.address)
}

/// The (library, address) pairs of some frames, in order.
pub open spec fn frames_pairs(mm: Seq<Lib>, frames: Seq<RequestFrame>) -> Seq<(Lib, u32)>
    decreases frames.len(),
{
    if frames.len() == 0 {
        Seq::empty()
    } else {
        frames_pairs(mm, frames.drop_last()).push(frame_pair(mm, frames.last()))
    }
}

/// The (library, address) pairs of some stacks, in order.
pub open spec fn stacks_pairs(mm: Seq<Lib>, stacks: Seq<RequestStack>) -> Seq<(Lib, u32)>
    decreases stacks.len(),
{
    if stacks.len() == 0 {
        Seq::empty()
    } else {
        stacks_pairs(mm, stacks.drop_last()) + frames_pairs(mm, stacks.last().0@)
    }
}

/// The (library, address) pairs of all frames of some jobs, in order.
pub open spec fn jobs_pairs(jobs: Seq<Job>) -> Seq<(Lib, u32)>
    decreases jobs.len(),
{
    if jobs.len() == 0 {
        Seq::empty()
    } else {
        jobs_pairs(jobs.drop_last()) + stacks_pairs(jobs.last().memory_map@, jobs.last().stacks@)
    }
}

/// The addresses that `pairs` gives for `lib`, counted with repetition.
pub open spec fn addresses_of(pairs: Seq<(Lib, u32)>, lib: Lib) -> Multiset<u32>
    decreases pairs.len(),
{
    if pairs.len() == 0 {
        Multiset::empty()
    } else if pairs.last().0.same_lib(&lib) {
        addresses_of(pairs.drop_last(), lib).insert(pairs.last().1)
    } else {
        addresses_of(pairs.drop_last(), lib)
    }
}

/// Every frame of every job names a library of its job's memory map.
pub open spec fn module_indexes_in_range(jobs: Seq<Job>) -> bool {
    forall|j: int, s: int, f: int|
        0 <= j < jobs.len() && 0 <= s < jobs[j].stacks@.len() && 0 <= f < jobs[j].stacks@[s].0@.len()
            ==> #[trigger] jobs[j].stacks@[s].0@[f].module_index < jobs[j].memory_map@.len()
}

/// No two entries are for the same library.
pub open spec fn distinct_libs<V>(entries: Seq<(Lib, V)>) -> bool {
    forall|i: int, k: int|
        #![trigger entries[i], entries[k]]
        0 <= i < k < entries.len() ==> !entries[i].0.same_lib(&entries[k].0)
}

/// `entries` holds, once per library that `pairs` mentions, the addresses
/// that `pairs` gives for it.
pub open spec fn groups_addresses_of(entries: Seq<(Lib, Vec<u32>)>, pairs: Seq<(Lib, u32)>) -> bool {
    &&& distinct_libs(entries)
    &&& forall|i: int| 0 <= i < entries.len() ==> #[trigger] entries[i].1@.to_multiset() == addresses_of(pairs, entries[i].0)
    &&& forall|i: int| 0 <= i < entries.len() ==> #[trigger] entries[i].1@.len() > 0
    &&& forall|lib: Lib| #[trigger] addresses_of(pairs, lib).len() > 0 ==> exists|i: int|
        0 <= i < entries.len() && #[trigger] entries[i].0.same_lib(&lib)
}

/// The addresses of a library only depend on its name and ID.
proof fn lemma_addresses_of_same_lib(pairs: Seq<(Lib, u32)>, a: Lib, b: Lib)
    requires
        a.same_lib(&b),
    ensures
        addresses_of(pairs, a) == addresses_of(pairs, b),
    decreases pairs.len(),
{
    if pairs.len() > 0 {
        lemma_addresses_of_same_lib(pairs.drop_last(), a, b);
    }
}

/// Records that `address` was requested in `lib`.
fn add_requested_address(
    entries: &mut Vec<(Lib, Vec<u32>)>,
    lib: &Lib,
    address: u32,
    Ghost(pairs): Ghost<Seq<(Lib, u32)>>,
)
    requires
        groups_addresses_of(old(entries)@, pairs),
    ensures
        groups_addresses_of(final(entries)@, pairs.push((*lib, address))),
{
    let ghost new_pairs = pairs.push((*lib, address));
    assert(new_pairs.drop_last() == pairs);
    let mut i: usize = 0;
    while i < entries.len()
        invariant
            i <= entries@.len(),
            groups_addresses_of(entries@, pairs),
            new_pairs == pairs.push((*lib, address)),
            forall|k: int| 0 <= k < i ==> !(#[trigger] entries@[k]).0.same_lib(lib),
        decreases entries@.len() - i,
    {
        if str_eq(entries[i].0.debug_name.as_str(), lib.debug_name.as_str()) && str_eq(
            entries[i].0.breakpad_id.as_str(),
            lib.breakpad_id.as_str(),
        ) {
            let ghost before = entries@;
            entries[i].1.push(address);
            proof {
                assert(new_pairs.drop_last() == pairs);
                assert(entries@[i as int].0 == before[i as int].0);
                assert forall|k: int| 0 <= k < entries@.len() implies #[trigger] entries@[k].1@.to_multiset()
                    == addresses_of(new_pairs, entries@[k].0) by {
                    if k == i {
                        assert(entries@[k].1@ == before[k].1@.push(address));
                        before[k].1@.to_multiset_ensures();
                    } else {
                        assert(entries@[k] == before[k]);
                        if entries@[k].0.same_lib(lib) {
                            assert(before[k].0.same_lib(&before[i as int].0));
                        }
                    }
                }
                assert forall|k: int| 0 <= k < entries@.len() implies #[trigger] entries@[k].1@.len() > 0 by {
                    assert(before[k].1@.len() > 0);
                }
                assert forall|other: Lib| #[trigger] addresses_of(new_pairs, other).len() > 0 implies exists|k: int|
                    0 <= k < entries@.len() && #[trigger] entries@[k].0.same_lib(&other) by {
                    if other.same_lib(lib) {
                        assert(entries@[i as int].0.same_lib(&other));
                    } else {
                        assert(addresses_of(pairs, other).len() > 0);
                        let k = choose|k: int| 0 <= k < before.len() && #[trigger] before[k].0.same_lib(&other);
                        assert(entries@[k].0 == before[k].0);
                    }
                }
                assert forall|a: int, b: int| 0 <= a < b < entries@.len() implies !entries@[a].0.same_lib(&entries@[b].0) by {
                    assert(entries@[a].0 == before[a].0 && entries@[b].0 == before[b].0);
                    assert(!before[a].0.same_lib(&before[b].0));
                }
            }
            return;
        }
        i = i + 1;
    }
    let ghost before = entries@;
    let mut addresses: Vec<u32> = Vec::new();
    addresses.push(address);
    entries.push((lib.clone(), addresses));
    proof {
        assert(!(addresses_of(pairs, *lib).len() > 0)) by {
            if addresses_of(pairs, *lib).len() > 0 {
                let k = choose|k: int| 0 <= k < before.len() && #[trigger] before[k].0.same_lib(lib);
                assert(!before[k].0.same_lib(lib));
            }
        }
        assert(addresses_of(pairs, *lib) == Multiset::<u32>::empty());
        assert forall|k: int| 0 <= k < entries@.len() implies #[trigger] entries@[k].1@.to_multiset()
            == addresses_of(new_pairs, entries@[k].0) by {
            if k == before.len() {
                lemma_addresses_of_same_lib(new_pairs, entries@[k].0, *lib);
                lemma_addresses_of_same_lib(pairs, entries@[k].0, *lib);
                assert(entries@[k].1@ == seq![address]);
                assert(seq![address] == Seq::<u32>::empty().push(address));
                Seq::<u32>::empty().to_multiset_ensures();
                assert(Seq::<u32>::empty().to_multiset() =~= Multiset::empty());
            } else {
                assert(entries@[k] == before[k]);
                assert(!before[k].0.same_lib(lib));
            }
        }
        assert forall|other: Lib| #[trigger] addresses_of(new_pairs, other).len() > 0 implies exists|k: int|
            0 <= k < entries@.len() && #[trigger] entries@[k].0.same_lib(&other) by {
            if other.same_lib(lib) {
                assert(entries@[before.len() as int].0.same_lib(&other));
            } else {
                assert(addresses_of(pairs, other).len() > 0);
                let k = choose|k: int| 0 <= k < before.len() && #[trigger] before[k].0.same_lib(&other);
                assert(entries@[k].0 == before[k].0);
            }
        }
        assert forall|a: int, b: int| 0 <= a < b < entries@.len() implies !entries@[a].0.same_lib(&entries@[b].0) by {
            assert(entries@[a].0 == before[a].0);
            if b < before.len() {
                assert(entries@[b].0 == before[b].0);
                assert(!before[a].0.same_lib(&before[b].0));
            } else {
                assert(!before[a].0.same_lib(lib));
            }
        }
        assert forall|k: int| 0 <= k < entries@.len() implies #[trigger] entries@[k].1@.len() > 0 by {
            if k < before.len() {
                assert(entries@[k] == before[k]);
            }
        }
    }
}

/// Groups the addresses of all frames of the request by library: one entry per
/// library that a frame falls in, holding the addresses of those frames. Fails
/// when a frame names a library beyond its job's memory map.
pub fn gather_requested_addresses(request: &Request) -> (r: Result<Vec<(Lib, Vec<u32>)>, Error>)
    ensures
        r is Ok <==> module_indexes_in_range(request.spec_jobs()),
        r matches Ok(entries) ==> groups_addresses_of(entries@, jobs_pairs(request.spec_jobs())),
        r matches Err(e) ==> (e matches Error::ParseRequestErrorContents(m)
            && m@ == "Stack frame module index beyond the memoryMap"@),
{
    let ghost jobs = request.spec_jobs();
    let mut entries: Vec<(Lib, Vec<u32>)> = Vec::new();
    let ghost mut seen: Seq<(Lib, u32)> = Seq::empty();
    let n = request.job_count();
    let mut j: usize = 0;
    while j < n
        invariant
            n == jobs.len(),
            jobs == request.spec_jobs(),
            j <= n,
            seen == jobs_pairs(jobs.take(j as int)),
            groups_addresses_of(entries@, seen),
            module_indexes_in_range(jobs.take(j as int)),
        decreases n - j,
    {
        let job = request.job(j);
        let ghost mm = job.memory_map@;
        let mut s: usize = 0;
        while s < job.stacks.len()
            invariant
                jobs == request.spec_jobs(),
                j < jobs.len(),
                *job == jobs[j as int],
                mm == job.memory_map@,
                s <= job.stacks@.len(),
                seen == jobs_pairs(jobs.take(j as int)) + stacks_pairs(mm, job.stacks@.take(s as int)),
                groups_addresses_of(entries@, seen),
                module_indexes_in_range(jobs.take(j as int)),
                forall|s2: int, f: int| 0 <= s2 < s && 0 <= f < job.stacks@[s2].0@.len()
                    ==> #[trigger] job.stacks@[s2].0@[f].module_index < mm.len(),
            decreases job.stacks@.len() - s,
        {
            let stack = &job.stacks[s];
            let mut f: usize = 0;
            while f < stack.0.len()
                invariant
                    jobs == request.spec_jobs(),
                    j < jobs.len(),
                    *job == jobs[j as int],
                    mm == job.memory_map@,
                    s < job.stacks@.len(),
                    *stack == job.stacks@[s as int],
                    f <= stack.0@.len(),
                    seen == jobs_pairs(jobs.take(j as int)) + stacks_pairs(mm, job.stacks@.take(s as int))
                        + frames_pairs(mm, stack.0@.take(f as int)),
                    groups_addresses_of(entries@, seen),
                    module_indexes_in_range(jobs.take(j as int)),
                    forall|s2: int, f2: int| 0 <= s2 < s && 0 <= f2 < job.stacks@[s2].0@.len()
                        ==> #[trigger] job.stacks@[s2].0@[f2].module_index < mm.len(),
                    forall|f2: int| 0 <= f2 < f ==> #[trigger] stack.0@[f2].module_index < mm.len(),
                decreases stack.0@.len() - f,
            {
                let frame = &stack.0[f];
                let index = frame.module_index as usize;
                if index >= job.memory_map.len() {
                    assert(jobs[j as int].stacks@[s as int].0@[f as int].module_index >= jobs[j as int].memory_map@.len());
                    return Err(Error::ParseRequestErrorContents(
                        "Stack frame module index beyond the memoryMap",
                    ));
                }
                let lib = &job.memory_map[index];
                proof {
                    assert(stack.0@.take(f + 1).drop_last() == stack.0@.take(f as int));
                    assert(frames_pairs(mm, stack.0@.take(f + 1)) == frames_pairs(mm, stack.0@.take(f as int)).push(
                        frame_pair(mm, *frame),
                    ));
                }
                add_requested_address(&mut entries, lib, frame.address, Ghost(seen));
                proof {
                    seen = seen.push((*lib, frame.address));
                    assert(seen == jobs_pairs(jobs.take(j as int)) + stacks_pairs(mm, job.stacks@.take(s as int))
                        + frames_pairs(mm, stack.0@.take(f + 1)));
                }
                f = f + 1;
            }
            proof {
                assert(stack.0@.take(f as int) == stack.0@);
                assert(job.stacks@.take(s + 1).drop_last() == job.stacks@.take(s as int));
                assert(stacks_pairs(mm, job.stacks@.take(s + 1)) == stacks_pairs(mm, job.stacks@.take(s as int))
                    + frames_pairs(mm, stack.0@));
                assert(seen == jobs_pairs(jobs.take(j as int)) + stacks_pairs(mm, job.stacks@.take(s + 1)));
            }
            s = s + 1;
        }
        proof {
            assert(job.stacks@.take(s as int) == job.stacks@);
            assert(jobs.take(j + 1).drop_last() == jobs.take(j as int));
            assert(jobs_pairs(jobs.take(j + 1)) == jobs_pairs(jobs.take(j as int)) + stacks_pairs(mm, job.stacks@));
            assert(module_indexes_in_range(jobs.take(j + 1))) by {
                assert forall|j2: int, s2: int, f2: int|
                    0 <= j2 < j + 1 && 0 <= s2 < jobs.take(j + 1)[j2].stacks@.len() && 0 <= f2 < jobs.take(j + 1)[j2].stacks@[s2].0@.len()
                    implies #[trigger] jobs.take(j + 1)[j2].stacks@[s2].0@[f2].module_index < jobs.take(j + 1)[j2].memory_map@.len() by {
                    if j2 < j {
                        assert(jobs.take(j as int)[j2] == jobs.take(j + 1)[j2]);
                        assert(jobs.take(j as int)[j2].stacks@[s2].0@[f2].module_index < jobs.take(j as int)[j2].memory_map@.len());
                    } else {
                        assert(job.stacks@[s2].0@[f2].module_index < mm.len());
                    }
                }
            }
        }
        j = j + 1;
    }
    assert(jobs.take(j as int) == jobs);
    Ok(entries)
}


/// The number of stacks of some jobs.
pub open spec fn stack_count(jobs: Seq<Job>) -> nat
    decreases jobs.len(),
{
    if jobs.len() == 0 {
        0
    } else {
        stack_count(jobs.drop_last()) + jobs.last().stacks@.len()
    }
}

/// The number of frames of some stacks.
pub open spec fn frames_in_stacks(stacks: Seq<RequestStack>) -> nat
    decreases stacks.len(),
{
    if stacks.len() == 0 {
        0
    } else {
        frames_in_stacks(stacks.drop_last()) + stacks.last().0@.len()
    }
}

/// The number of frames of some jobs.
pub open spec fn frame_count(jobs: Seq<Job>) -> nat
    decreases jobs.len(),
{
    if jobs.len() == 0 {
        0
    } else {
        frame_count(jobs.drop_last()) + frames_in_stacks(jobs.last().stacks@)
    }
}

/// Counts only grow along the jobs.
proof fn lemma_counts_grow(jobs: Seq<Job>, j: int)
    requires
        0 <= j <= jobs.len(),
    ensures
        stack_count(jobs.take(j)) <= stack_count(jobs),
        frame_count(jobs.take(j)) <= frame_count(jobs),
    decreases jobs.len() - j,
{
    if j < jobs.len() {
        lemma_counts_grow(jobs, j + 1);
        assert(jobs.take(j + 1).drop_last() == jobs.take(j));
    } else {
        assert(jobs.take(j) == jobs);
    }
}

/// Frame counts only grow along the stacks.
proof fn lemma_frames_grow(stacks: Seq<RequestStack>, s: int)
    requires
        0 <= s <= stacks.len(),
    ensures
        frames_in_stacks(stacks.take(s)) <= frames_in_stacks(stacks),
    decreases stacks.len() - s,
{
    if s < stacks.len() {
        lemma_frames_grow(stacks, s + 1);
        assert(stacks.take(s + 1).drop_last() == stacks.take(s));
    } else {
        assert(stacks.take(s) == stacks);
    }
}

/// The number of jobs, stacks and frames of a request.
pub fn request_counts(request: &Request) -> (r: (usize, usize, usize))
    requires
        stack_count(request.spec_jobs()) <= usize::MAX,
        frame_count(request.spec_jobs()) <= usize::MAX,
    ensures
        r.0 == request.spec_jobs().len(),
        r.1 == stack_count(request.spec_jobs()),
        r.2 == frame_count(request.spec_jobs()),
{
    let ghost jobs = request.spec_jobs();
    let n = request.job_count();
    let mut stacks: usize = 0;
    let mut frames: usize = 0;
    let mut j: usize = 0;
    while j < n
        invariant
            n == jobs.len(),
            jobs == request.spec_jobs(),
            j <= n,
            stacks == stack_count(jobs.take(j as int)),
            frames == frame_count(jobs.take(j as int)),
            stack_count(jobs) <= usize::MAX,
            frame_count(jobs) <= usize::MAX,
        decreases n - j,
    {
        let job = request.job(j);
        proof {
            assert(jobs.take(j + 1).drop_last() == jobs.take(j as int));
            assert(jobs.take(j + 1).last() == *job);
            lemma_counts_grow(jobs, j + 1);
        }
        stacks = stacks + job.stacks.len();
        let mut in_job: usize = 0;
        let mut s: usize = 0;
        while s < job.stacks.len()
            invariant
                s <= job.stacks@.len(),
                in_job == frames_in_stacks(job.stacks@.take(s as int)),
                frames + frames_in_stacks(job.stacks@) <= usize::MAX,
            decreases job.stacks@.len() - s,
        {
            proof {
                assert(job.stacks@.take(s + 1).drop_last() == job.stacks@.take(s as int));
                lemma_frames_grow(job.stacks@, s + 1);
            }
            in_job = in_job + job.stacks[s].0.len();
            s = s + 1;
        }
        proof {
            assert(job.stacks@.take(s as int) == job.stacks@);
        }
        frames = frames + in_job;
        j = j + 1;
    }
    proof {
        assert(jobs.take(j as int) == jobs);
    }
    (n, stacks, frames)
}

/// Why no symbols could be had for a library: its breakpad ID does not name
/// one, or obtaining its symbol map failed with an error `E` of the caller's.
pub enum LibError<E> {
    InvalidBreakpadId(InvalidBreakpadId),
    Symbols(E),
}

/// What the query asks of its caller next.
pub enum SymbolicateStep {
    /// The symbol map of the library with this debug name and debug ID.
    NeedSymbolMap { debug_name: String, debug_id: DebugId },
    /// Nothing: the response is complete.
    Done,
}

/// A `/symbolicate/v5` query in progress. `R` is what the caller's lookups in
/// a library's symbol map gave; `E` is the caller's error for a symbol map
/// that could not be had.
pub struct SymbolicateQuery<R, E> {
    jobs_count: usize,
    stacks_count: usize,
    frames_count: usize,
    /// The libraries to look up, with the addresses asked in each, in order.
    libs: Vec<(Lib, Vec<u32>)>,
    /// The position of the next library to look up.
    next: usize,
    /// While the library before `next` waits for its symbol map: its debug ID.
    awaiting: Option<DebugId>,
    /// One result for each library looked up, in order.
    results: Vec<Result<R, LibError<E>>>,
    /// One statistic for each library looked up, in order.
    module_stats: Vec<ModuleStat>,
}

/// A module statistic is that of `lib`, and says what its result says.
pub open spec fn stat_of<R, E>(stat: ModuleStat, lib: Lib, result: Result<R, LibError<E>>) -> bool {
    &&& stat.debug_name@ == lib.debug_name@
    &&& stat.breakpad_id@ == lib.breakpad_id@
    &&& (stat.outcome is Loaded <==> result is Ok)
    &&& (result matches Err(LibError::InvalidBreakpadId(e)) ==> e.0@ == lib.breakpad_id@ && (stat.outcome matches ModuleLoadOutcome::Failed { error_name } && error_name@ == "InvalidBreakpadId"@))
}

/// A library's result is an `InvalidBreakpadId` failure exactly when its
/// breakpad ID names no library.
pub open spec fn result_fits_id<R, E>(result: Result<R, LibError<E>>, lib: Lib) -> bool {
    (result matches Err(LibError::InvalidBreakpadId(_))) <==> !valid_breakpad_id(lib.breakpad_id@)
}

impl<R, E> SymbolicateQuery<R, E> {
    /// The libraries the query looks up, with their addresses, in order.
    pub closed spec fn libs(&self) -> Seq<(Lib, Vec<u32>)> {
        self.libs@
    }

    /// The results of the libraries looked up so far, in order.
    pub closed spec fn results(&self) -> Seq<Result<R, LibError<E>>> {
        self.results@
    }

    /// The statistics of the libraries looked up so far, in order.
    pub closed spec fn module_stats(&self) -> Seq<ModuleStat> {
        self.module_stats@
    }

    /// The numbers of jobs, stacks and frames of the request.
    pub closed spec fn counts(&self) -> (usize, usize, usize) {
        (self.jobs_count, self.stacks_count, self.frames_count)
    }

    /// Whether the query waits for a symbol map.
    pub closed spec fn is_awaiting(&self) -> bool {
        self.awaiting is Some
    }

    /// The library whose symbol map the query waits for.
    pub closed spec fn awaited_lib(&self) -> Lib {
        self.libs@[self.next - 1].0
    }

    /// Whether the query is complete.
    pub open spec fn is_done(&self) -> bool {
        !self.is_awaiting() && self.results().len() == self.libs().len()
    }

    /// Results and statistics go with the libraries, in order; the query
    /// waits for a symbol map exactly while libraries remain.
    pub closed spec fn wf(&self) -> bool {
        &&& self.next <= self.libs@.len()
        &&& self.awaiting is Some ==> self.next >= 1 && self.results@.len() == self.next - 1
        &&& self.awaiting is None ==> self.results@.len() == self.next && self.next == self.libs@.len()
        &&& self.module_stats@.len() == self.results@.len()
        &&& distinct_libs(self.libs@)
        &&& forall|i: int|
            0 <= i < self.results@.len() ==> stat_of(#[trigger] self.module_stats@[i], self.libs@[i].0, self.results@[i])
        &&& forall|i: int| 0 <= i < self.results@.len() ==> result_fits_id(#[trigger] self.results@[i], self.libs@[i].0)
        &&& self.awaiting matches Some(id) ==> valid_breakpad_id(self.libs@[self.next - 1].0.breakpad_id@)
            && id == debug_id_of_breakpad(self.libs@[self.next - 1].0.breakpad_id@)
    }

    /// What the query promises at each step: the libraries passed over are
    /// exactly those whose breakpad ID names no library, and it waits for
    /// the symbol map of the next library in order, whose ID names one, or
    /// is complete.
    pub open spec fn follows_ids(&self) -> bool {
        &&& forall|i: int| 0 <= i < self.results().len() ==> result_fits_id(#[trigger] self.results()[i], self.libs()[i].0)
        &&& self.is_awaiting() ==> self.results().len() < self.libs().len() && self.awaited_lib() == self.libs()[self.results().len() as int].0
            && valid_breakpad_id(self.awaited_lib().breakpad_id@)
        &&& !self.is_awaiting() ==> self.is_done()
    }

    proof fn lemma_wf_follows_ids(&self)
        requires
            self.wf(),
        ensures
            self.follows_ids(),
    {
    }

    /// Moves on to the next library that has a valid breakpad ID, recording
    /// an `InvalidBreakpadId` failure for each one passed over; or, with no
    /// library left, completes the query.
    fn advance(&mut self)
        requires
            old(self).awaiting is None,
            old(self).next <= old(self).libs@.len(),
            old(self).results@.len() == old(self).next,
            old(self).module_stats@.len() == old(self).results@.len(),
            distinct_libs(old(self).libs@),
            forall|i: int|
                0 <= i < old(self).results@.len() ==> stat_of(
                    #[trigger] old(self).module_stats@[i],
                    old(self).libs@[i].0,
                    old(self).results@[i],
                ),
            forall|i: int| 0 <= i < old(self).results@.len() ==> result_fits_id(#[trigger] old(self).results@[i], old(self).libs@[i].0),
        ensures
            final(self).wf(),
            final(self).libs() == old(self).libs(),
            final(self).counts() == old(self).counts(),
            final(self).results().len() >= old(self).results().len(),
            forall|i: int| 0 <= i < old(self).results().len() ==> #[trigger] final(self).results()[i] == old(self).results()[i],
            forall|i: int|
                0 <= i < old(self).module_stats().len() ==> #[trigger] final(self).module_stats()[i] == old(self).module_stats()[i],
            forall|i: int|
                old(self).results().len() <= i < final(self).results().len() ==> #[trigger] final(self).results()[i] is Err,
            forall|i: int|
                old(self).results().len() <= i < final(self).results().len() ==> (#[trigger] final(self).results()[i] matches Err(LibError::InvalidBreakpadId(_)))
                    && !valid_breakpad_id(final(self).libs()[i].0.breakpad_id@),
    {
        while self.next < self.libs.len()
            invariant
                self.awaiting is None,
                self.next <= self.libs@.len(),
                self.results@.len() == self.next,
                self.module_stats@.len() == self.results@.len(),
                self.libs@ == old(self).libs@,
                self.jobs_count == old(self).jobs_count,
                self.stacks_count == old(self).stacks_count,
                self.frames_count == old(self).frames_count,
                distinct_libs(self.libs@),
                self.results@.len() >= old(self).results@.len(),
                forall|i: int| 0 <= i < old(self).results@.len() ==> #[trigger] self.results@[i] == old(self).results@[i],
                old(self).module_stats@.len() == old(self).results@.len(),
                forall|i: int| 0 <= i < old(self).module_stats@.len() ==> #[trigger] self.module_stats@[i] == old(self).module_stats@[i],
                forall|i: int| old(self).results@.len() <= i < self.results@.len() ==> #[trigger] self.results@[i] is Err,
                forall|i: int|
                    0 <= i < self.results@.len() ==> stat_of(#[trigger] self.module_stats@[i], self.libs@[i].0, self.results@[i]),
                forall|i: int| 0 <= i < self.results@.len() ==> result_fits_id(#[trigger] self.results@[i], self.libs@[i].0),
                forall|i: int|
                    old(self).results@.len() <= i < self.results@.len() ==> (#[trigger] self.results@[i] matches Err(LibError::InvalidBreakpadId(_)))
                        && !valid_breakpad_id(self.libs@[i].0.breakpad_id@),
            decreases self.libs@.len() - self.next,
        {
            let i = self.next;
            self.next = i + 1;
            match to_debug_id(self.libs[i].0.breakpad_id.as_str()) {
                Ok(debug_id) => {
                    self.awaiting = Some(debug_id);
                    return;
                },
                Err(e) => {
                    let lib = &self.libs[i].0;
                    let error_name = e.enum_as_string();
                    let stat = ModuleStat {
                        debug_name: lib.debug_name.as_str().to_owned(),
                        breakpad_id: lib.breakpad_id.as_str().to_owned(),
                        outcome: ModuleLoadOutcome::Failed { error_name },
                    };
                    self.module_stats.push(stat);
                    self.results.push(Err(LibError::InvalidBreakpadId(e)));
                },
            }
        }
    }

    /// The query for a request: its libraries are those that the request's
    /// frames fall in (see `gather_requested_addresses`), each with the
    /// addresses asked in it; the query then moves on to the first library
    /// with a valid breakpad ID. Fails when a frame names a library beyond
    /// its job's memory map.
    pub fn new(request: &Request) -> (r: Result<Self, Error>)
        requires
            stack_count(request.spec_jobs()) <= usize::MAX,
            frame_count(request.spec_jobs()) <= usize::MAX,
        ensures
            r is Ok <==> module_indexes_in_range(request.spec_jobs()),
            r matches Err(e) ==> (e matches Error::ParseRequestErrorContents(m)
                && m@ == "Stack frame module index beyond the memoryMap"@),
            r matches Ok(q) ==> {
                &&& q.wf()
                &&& groups_addresses_of(q.libs(), jobs_pairs(request.spec_jobs()))
                &&& q.counts() == (request.spec_jobs().len() as usize, stack_count(request.spec_jobs()) as usize, frame_count(
                    request.spec_jobs(),
                ) as usize)
                &&& forall|i: int| 0 <= i < q.results().len() ==> #[trigger] q.results()[i] is Err
                &&& q.follows_ids()
            },
    {
        let libs = gather_requested_addresses(request)?;
        let (jobs_count, stacks_count, frames_count) = request_counts(request);
        let mut q = SymbolicateQuery {
            jobs_count,
            stacks_count,
            frames_count,
            libs,
            next: 0,
            awaiting: None,
            results: Vec::new(),
            module_stats: Vec::new(),
        };
        q.advance();
        proof {
            q.lemma_wf_follows_ids();
        }
        Ok(q)
    }

    /// What the query asks of its caller next.
    pub fn poll(&self) -> (step: SymbolicateStep)
        requires
            self.wf(),
        ensures
            self.is_awaiting() ==> (step matches SymbolicateStep::NeedSymbolMap { debug_name, debug_id }
                && debug_name@ == self.awaited_lib().debug_name@
                && debug_id == debug_id_of_breakpad(self.awaited_lib().breakpad_id@)),
            !self.is_awaiting() ==> step is Done,
    {
        match &self.awaiting {
            Some(debug_id) => SymbolicateStep::NeedSymbolMap {
                debug_name: self.libs[self.next - 1].0.debug_name.as_str().to_owned(),
                debug_id: *debug_id,
            },
            None => SymbolicateStep::Done,
        }
    }

    /// Hands the query what came of the symbol map it asked for: the
    /// caller's lookups of the library's addresses in it, or the error met,
    /// with the error's name. The library gets that result and a statistic
    /// that says so; the query moves on.
    pub fn provide_symbol_map(&mut self, result: Result<R, (E, &'static str)>)
        requires
            old(self).wf(),
            old(self).is_awaiting(),
        ensures
            final(self).wf(),
            final(self).libs() == old(self).libs(),
            final(self).counts() == old(self).counts(),
            final(self).results().len() > old(self).results().len(),
            forall|i: int| 0 <= i < old(self).results().len() ==> #[trigger] final(self).results()[i] == old(self).results()[i],
            final(self).results()[old(self).results().len() + 0int] is Ok <==> result is Ok,
            result matches Err((_, name)) ==> final(self).module_stats()[old(self).results().len() + 0int].outcome
                == (ModuleLoadOutcome::Failed { error_name: name }),
            forall|i: int|
                old(self).results().len() < i < final(self).results().len() ==> #[trigger] final(self).results()[i] is Err,
            forall|i: int|
                old(self).results().len() < i < final(self).results().len() ==> (#[trigger] final(self).results()[i] matches Err(LibError::InvalidBreakpadId(_)))
                    && !valid_breakpad_id(final(self).libs()[i].0.breakpad_id@),
            final(self).follows_ids(),
    {
        let i = self.next - 1;
        let lib = &self.libs[i].0;
        let debug_name = lib.debug_name.as_str().to_owned();
        let breakpad_id = lib.breakpad_id.as_str().to_owned();
        self.awaiting = None;
        match result {
            Ok(found) => {
                self.module_stats.push(ModuleStat { debug_name, breakpad_id, outcome: ModuleLoadOutcome::Loaded });
                self.results.push(Ok(found));
            },
            Err((e, error_name)) => {
                self.module_stats.push(
                    ModuleStat { debug_name, breakpad_id, outcome: ModuleLoadOutcome::Failed { error_name } },
                );
                self.results.push(Err(LibError::Symbols(e)));
            },
        }
        self.advance();
        proof {
            self.lemma_wf_follows_ids();
        }
    }

    /// The response of a complete query: each library with its addresses
    /// and result, and the request's statistics, which hold one entry per
    /// library looked up.
    pub fn finish(self) -> (r: (Vec<(Lib, Vec<u32>, Result<R, LibError<E>>)>, SymbolicateStats))
        requires
            self.wf(),
            self.is_done(),
        ensures
            r.0@.len() == self.libs().len(),
            forall|i: int|
                0 <= i < r.0@.len() ==> (#[trigger] r.0@[i]).0 == self.libs()[i].0 && r.0@[i].1 == self.libs()[i].1
                    && r.0@[i].2 == self.results()[i],
            r.1.module_stats@ == self.module_stats(),
            (r.1.jobs_count, r.1.stacks_count, r.1.frames_count) == self.counts(),
            r.1.module_stats@.len() == self.libs().len(),
            forall|i: int|
                0 <= i < self.libs().len() ==> stat_of(#[trigger] r.1.module_stats@[i], self.libs()[i].0, self.results()[i]),
    {
        let SymbolicateQuery { jobs_count, stacks_count, frames_count, libs, results, module_stats, .. } = self;
        let ghost all_libs = libs@;
        let ghost all_results = results@;
        let mut out: Vec<(Lib, Vec<u32>, Result<R, LibError<E>>)> = Vec::new();
        let mut libs = libs;
        let mut results = results;
        // Take both lists apart from the back, then put the entries in order.
        let mut reversed: Vec<(Lib, Vec<u32>, Result<R, LibError<E>>)> = Vec::new();
        while libs.len() > 0
            invariant
                libs@.len() == results@.len(),
                libs@ == all_libs.take(libs@.len() as int),
                results@ == all_results.take(results@.len() as int),
                all_libs.len() == all_results.len(),
                reversed@.len() + libs@.len() == all_libs.len(),
                forall|k: int|
                    0 <= k < reversed@.len() ==> {
                        let at = all_libs.len() - 1 - k;
                        &&& (#[trigger] reversed@[k]).0 == all_libs[at].0
                        &&& reversed@[k].1 == all_libs[at].1
                        &&& reversed@[k].2 == all_results[at]
                    },
            decreases libs@.len(),
        {
            let (lib, addresses) = libs.pop().unwrap();
            let result = results.pop().unwrap();
            reversed.push((lib, addresses, result));
        }
        while reversed.len() > 0
            invariant
                all_libs.len() == all_results.len(),
                reversed@.len() + out@.len() == all_libs.len(),
                forall|k: int|
                    0 <= k < reversed@.len() ==> {
                        let at = all_libs.len() - 1 - k;
                        &&& (#[trigger] reversed@[k]).0 == all_libs[at].0
                        &&& reversed@[k].1 == all_libs[at].1
                        &&& reversed@[k].2 == all_results[at]
                    },
                forall|k: int|
                    0 <= k < out@.len() ==> (#[trigger] out@[k]).0 == all_libs[k].0 && out@[k].1 == all_libs[k].1
                        && out@[k].2 == all_results[k],
            decreases reversed@.len(),
        {
            let entry = reversed.pop().unwrap();
            out.push(entry);
        }
        let stats = SymbolicateStats { jobs_count, stacks_count, frames_count, module_stats };
        (out, stats)
    }
}

/// Once a query is complete, its statistics hold exactly one entry for each
/// (debug name, breakpad ID) pair that the request's frames fall in, and no
/// other: each entry names one library, and no two name the same one.
pub proof fn law_one_module_stat_per_library<R, E>(q: SymbolicateQuery<R, E>, request: Request)
    requires
        q.wf(),
        q.is_done(),
        groups_addresses_of(q.libs(), jobs_pairs(request.spec_jobs())),
    ensures
        q.module_stats().len() == q.libs().len(),
        forall|i: int|
            0 <= i < q.module_stats().len() ==> (#[trigger] q.module_stats()[i]).debug_name@ == q.libs()[i].0.debug_name@
                && q.module_stats()[i].breakpad_id@ == q.libs()[i].0.breakpad_id@,
        forall|i: int, k: int|
            #![trigger q.module_stats()[i], q.module_stats()[k]]
            0 <= i < k < q.module_stats().len() ==> !(q.module_stats()[i].debug_name@ == q.module_stats()[k].debug_name@
                && q.module_stats()[i].breakpad_id@ == q.module_stats()[k].breakpad_id@),
        forall|lib: Lib|
            #[trigger] addresses_of(jobs_pairs(request.spec_jobs()), lib).len() > 0 ==> exists|i: int|
                0 <= i < q.module_stats().len() && (#[trigger] q.module_stats()[i]).debug_name@ == lib.debug_name@
                    && q.module_stats()[i].breakpad_id@ == lib.breakpad_id@,
{
    assert forall|i: int| 0 <= i < q.module_stats().len() implies (#[trigger] q.module_stats()[i]).debug_name@
        == q.libs()[i].0.debug_name@ && q.module_stats()[i].breakpad_id@ == q.libs()[i].0.breakpad_id@ by {
        assert(stat_of(q.module_stats()[i], q.libs()[i].0, q.results()[i]));
    }
    assert forall|i: int, k: int|
        #![trigger q.module_stats()[i], q.module_stats()[k]]
        0 <= i < k < q.module_stats().len() implies !(q.module_stats()[i].debug_name@ == q.module_stats()[k].debug_name@
            && q.module_stats()[i].breakpad_id@ == q.module_stats()[k].breakpad_id@) by {
        assert(stat_of(q.module_stats()[i], q.libs()[i].0, q.results()[i]));
        assert(stat_of(q.module_stats()[k], q.libs()[k].0, q.results()[k]));
        assert(!q.libs()[i].0.same_lib(&q.libs()[k].0));
    }
    assert forall|lib: Lib| #[trigger] addresses_of(jobs_pairs(request.spec_jobs()), lib).len() > 0 implies exists|i: int|
        0 <= i < q.module_stats().len() && (#[trigger] q.module_stats()[i]).debug_name@ == lib.debug_name@
            && q.module_stats()[i].breakpad_id@ == lib.breakpad_id@ by {
        let i = choose|i: int| 0 <= i < q.libs().len() && #[trigger] q.libs()[i].0.same_lib(&lib);
        assert(stat_of(q.module_stats()[i], q.libs()[i].0, q.results()[i]));
    }
}

} // verus!
