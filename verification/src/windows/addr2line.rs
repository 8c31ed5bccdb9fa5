//! The frames that the PDB information gives for an address: the procedures
//! of all modules sorted by address, the procedure that contains an address,
//! and the line of it the address falls on.
//!
//! Reading the PDB's streams happens outside: procedures come here with
//! their addresses relative to the image and their names as written out.
use crate::seqs::{lemma_filter_push, lemma_map_values_push};
use crate::windows::inline_ranges::{sorted_by_depth_and_start, InlineRange};
use vstd::prelude::*;

verus! {

/// One frame of an address's inline stack.
pub struct Frame {
    pub function: String,
    pub location: Option<Location>,
}

/// Where in the source a frame is.
#[derive(Clone)]
pub struct Location {
    pub file: Option<String>,
    pub line: Option<u32>,
}

/// A procedure symbol as a module lists it: where its code starts relative
/// to the image (`None` where its section offset has no such address), its
/// length, where its symbols lie in its module, and its name.
pub struct ProcedureSymbol {
    pub start_rva: Option<u32>,
    pub len: u32,
    pub module_index: u16,
    pub symbol_index: u32,
    pub end_symbol_index: u32,
    pub name: String,
}

/// A procedure that frames can be looked up in: its code runs from
/// `start_rva` up to `end_rva`.
pub struct Procedure {
    pub start_rva: u32,
    pub end_rva: u32,
    pub module_index: u16,
    pub symbol_index: u32,
    pub end_symbol_index: u32,
    pub name: String,
}

/// A procedure symbol that frames can be looked up in: it has code, at an
/// address relative to the image.
pub open spec fn usable() -> spec_fn(ProcedureSymbol) -> bool {
    |s: ProcedureSymbol| s.len != 0 && s.start_rva is Some
}

/// The procedure of a usable procedure symbol.
pub open spec fn procedure_of() -> spec_fn(ProcedureSymbol) -> (u32, u32, u16, u32, u32, Seq<char>) {
    |s: ProcedureSymbol|
        (
            s.start_rva->0,
            (s.start_rva->0 + s.len) as u32,
            s.module_index,
            s.symbol_index,
            s.end_symbol_index,
            s.name@,
        )
}

/// A procedure as plain values.
pub open spec fn procedure_view(p: Procedure) -> (u32, u32, u16, u32, u32, Seq<char>) {
    (p.start_rva, p.end_rva, p.module_index, p.symbol_index, p.end_symbol_index, p.name@)
}

/// The plain values of procedures.
pub open spec fn procedure_views() -> spec_fn(Procedure) -> (u32, u32, u16, u32, u32, Seq<char>) {
    |p: Procedure| procedure_view(p)
}

/// The procedures of some symbols, as plain values, in order.
pub open spec fn procedures_of(symbols: Seq<ProcedureSymbol>) -> Seq<(u32, u32, u16, u32, u32, Seq<char>)> {
    symbols.filter(usable()).map_values(procedure_of())
}

/// Whether a procedure (as plain values) starts at `start`.
pub open spec fn starts_at(start: u32) -> spec_fn((u32, u32, u16, u32, u32, Seq<char>)) -> bool {
    |p: (u32, u32, u16, u32, u32, Seq<char>)| p.0 == start
}

/// Whether a procedure starts at `start`.
pub open spec fn procedure_starts_at(start: u32) -> spec_fn(Procedure) -> bool {
    |p: Procedure| p.start_rva == start
}

/// The procedures start at strictly increasing addresses.
pub open spec fn strictly_increasing_starts(procs: Seq<Procedure>) -> bool {
    forall|i: int, j: int| 0 <= i < j < procs.len() ==> #[trigger] procs[i].start_rva < #[trigger] procs[j].start_rva
}

/// The procedures start at non-decreasing addresses.
pub open spec fn sorted_by_start(procs: Seq<Procedure>) -> bool {
    forall|i: int, j: int| 0 <= i <= j < procs.len() ==> #[trigger] procs[i].start_rva <= #[trigger] procs[j].start_rva
}

/// Every usable symbol's code ends within the address space.
pub open spec fn ends_fit(symbols: Seq<ProcedureSymbol>) -> bool {
    forall|i: int|
        0 <= i < symbols.len() ==> ((#[trigger] symbols[i]).start_rva matches Some(start) ==> start + symbols[i].len
            <= u32::MAX)
}

/// `slice::sort_by_key` on the start address: the standard library documents
/// this sort as stable, so procedures at the same address keep their order.
#[verifier::external_body]
fn sort_by_start(v: &mut Vec<Procedure>)
    ensures
        final(v)@.len() == old(v)@.len(),
        sorted_by_start(final(v)@),
        forall|a: u32| #[trigger] final(v)@.filter(procedure_starts_at(a)) == old(v)@.filter(procedure_starts_at(a)),
{
    v.sort_by_key(|p| p.start_rva)
}

/// Filtering a reversed sequence gives the filtered sequence reversed.
pub(crate) proof fn lemma_filter_reverse<A>(s: Seq<A>, p: spec_fn(A) -> bool)
    ensures
        s.reverse().filter(p) == s.filter(p).reverse(),
    decreases s.len(),
{
    if s.len() > 0 {
        let rest = s.drop_first();
        lemma_filter_reverse(rest, p);
        assert(s == seq![s[0]] + rest);
        assert(s.reverse() == rest.reverse().push(s[0]));
        lemma_filter_push(rest.reverse(), s[0], p);
        reveal_with_fuel(Seq::filter, 1);
        assert(s.filter(p) == if p(s[0]) {
            seq![s[0]] + rest.filter(p)
        } else {
            rest.filter(p)
        }) by {
            lemma_filter_prepend(rest, s[0], p);
        }
    }
}

/// Filtering a sequence that starts with one more element.
proof fn lemma_filter_prepend<A>(s: Seq<A>, x: A, p: spec_fn(A) -> bool)
    ensures
        (seq![x] + s).filter(p) == (if p(x) {
            seq![x] + s.filter(p)
        } else {
            s.filter(p)
        }),
    decreases s.len(),
{
    reveal_with_fuel(Seq::filter, 1);
    if s.len() == 0 {
        assert(seq![x] + s == Seq::<A>::empty().push(x));
        lemma_filter_push(Seq::<A>::empty(), x, p);
        assert(Seq::<A>::empty().filter(p) == Seq::<A>::empty());
    } else {
        lemma_filter_prepend(s.drop_last(), x, p);
        assert(seq![x] + s == (seq![x] + s.drop_last()).push(s.last()));
        lemma_filter_push(seq![x] + s.drop_last(), s.last(), p);
        lemma_filter_push(s.drop_last(), s.last(), p);
        assert(s.drop_last().push(s.last()) == s);
    }
}

/// The first element that passes a filter is the one at the first position
/// where it holds.
proof fn lemma_filter_first<A>(s: Seq<A>, p: spec_fn(A) -> bool, j: int)
    requires
        0 <= j < s.len(),
        p(s[j]),
        forall|t: int| 0 <= t < j ==> !p(#[trigger] s[t]),
    ensures
        s.filter(p).len() > 0,
        s.filter(p)[0] == s[j],
    decreases s.len(),
{
    reveal_with_fuel(Seq::filter, 1);
    if j < s.len() - 1 {
        lemma_filter_first(s.drop_last(), p, j);
        lemma_filter_push(s.drop_last(), s.last(), p);
        assert(s.drop_last().push(s.last()) == s);
    } else {
        assert forall|t: int| 0 <= t < s.drop_last().len() implies !p(#[trigger] s.drop_last()[t]) by {
            assert(s.drop_last()[t] == s[t]);
        }
        lemma_filter_none(s.drop_last(), p);
        lemma_filter_push(s.drop_last(), s.last(), p);
        assert(s.drop_last().push(s.last()) == s);
    }
}

/// Nothing passes a filter that no element passes.
proof fn lemma_filter_none<A>(s: Seq<A>, p: spec_fn(A) -> bool)
    requires
        forall|t: int| 0 <= t < s.len() ==> !p(#[trigger] s[t]),
    ensures
        s.filter(p) == Seq::<A>::empty(),
    decreases s.len(),
{
    reveal_with_fuel(Seq::filter, 1);
    if s.len() > 0 {
        assert forall|t: int| 0 <= t < s.drop_last().len() implies !p(#[trigger] s.drop_last()[t]) by {
            assert(s.drop_last()[t] == s[t]);
        }
        lemma_filter_none(s.drop_last(), p);
    }
}

/// Looks up frames in the procedures of a PDB.
pub struct Addr2LineContext {
    /// The procedures, by strictly increasing start address.
    procedures: Vec<Procedure>,
}

impl Addr2LineContext {
    /// The procedures, as plain values, by strictly increasing start address.
    pub closed spec fn procedures(&self) -> Seq<Procedure> {
        self.procedures@
    }

    /// The procedures start at strictly increasing addresses.
    #[verifier::type_invariant]
    closed spec fn procedures_are_sorted(&self) -> bool {
        strictly_increasing_starts(self.procedures@)
    }

    /// The procedures of the symbols: those with code at an address
    /// relative to the image, sorted by address; where several start at the
    /// same address (identical code folded into one), the last of them.
    pub fn new(symbols: &[ProcedureSymbol]) -> (ctx: Self)
        requires
            ends_fit(symbols@),
        ensures
            strictly_increasing_starts(ctx.procedures()),
            forall|a: u32|
                #![trigger has_start(ctx.procedures(), a)]
                #![trigger procedures_of(symbols@).filter(starts_at(a))]
                has_start(ctx.procedures(), a) <==> procedures_of(symbols@).filter(starts_at(a)).len() > 0,
            forall|i: int|
                0 <= i < ctx.procedures().len() ==> procedure_view(#[trigger] ctx.procedures()[i]) == procedures_of(
                    symbols@,
                ).filter(starts_at(ctx.procedures()[i].start_rva)).last(),
    {
        let ghost wanted = procedures_of(symbols@);
        // The usable procedures, in order.
        let mut all: Vec<Procedure> = Vec::new();
        let mut i: usize = 0;
        while i < symbols.len()
            invariant
                i <= symbols@.len(),
                ends_fit(symbols@),
                all@.map_values(procedure_views()) == symbols@.take(i as int).filter(usable()).map_values(procedure_of()),
            decreases symbols@.len() - i,
        {
            let s = &symbols[i];
            let ghost before = all@;
            proof {
                assert(symbols@.take(i + 1) == symbols@.take(i as int).push(*s));
                lemma_filter_push(symbols@.take(i as int), *s, usable());
                assert(symbols@[i as int] == *s);
            }
            if s.len != 0 {
                if let Some(start) = s.start_rva {
                    let p = Procedure {
                        start_rva: start,
                        end_rva: start + s.len,
                        module_index: s.module_index,
                        symbol_index: s.symbol_index,
                        end_symbol_index: s.end_symbol_index,
                        name: s.name.clone(),
                    };
                    all.push(p);
                    proof {
                        assert(all@ == before.push(p));
                        lemma_map_values_push(before, p, procedure_views());
                        lemma_map_values_push(symbols@.take(i as int).filter(usable()), *s, procedure_of());
                    }
                }
            }
            i = i + 1;
        }
        proof {
            assert(symbols@.take(i as int) == symbols@);
        }
        // Reverse, so that of procedures at the same address the last comes first.
        let ghost forward = all@;
        let mut reversed: Vec<Procedure> = Vec::new();
        while all.len() > 0
            invariant
                all@.len() <= forward.len(),
                all@ == forward.take(all@.len() as int),
                reversed@ == forward.skip(all@.len() as int).reverse(),
            decreases all@.len(),
        {
            let ghost n = all@.len() as int;
            let ghost before = all@;
            let p = all.pop().unwrap();
            proof {
                assert(p == forward[n - 1]);
                assert(all@ =~= forward.take(n - 1));
                assert(forward.skip(n - 1) =~= seq![p] + forward.skip(n));
                assert(forward.skip(n - 1).reverse() =~= forward.skip(n).reverse().push(p));
            }
            reversed.push(p);
        }
        proof {
            assert(forward.skip(0) == forward);
        }
        let ghost rev = reversed@;
        sort_by_start(&mut reversed);
        let sorted = reversed;
        // Keep the first procedure at each address.
        let mut procedures: Vec<Procedure> = Vec::new();
        let mut j: usize = 0;
        while j < sorted.len()
            invariant
                j <= sorted@.len(),
                sorted_by_start(sorted@),
                strictly_increasing_starts(procedures@),
                procedures@.len() > 0 ==> j > 0 && procedures@.last().start_rva == sorted@[j - 1].start_rva,
                j > 0 ==> procedures@.len() > 0,
                forall|a: u32| #[trigger] has_start(procedures@, a) <==> has_start(sorted@.take(j as int), a),
                forall|i: int|
                    0 <= i < procedures@.len() ==> exists|t: int|
                        0 <= t < j && sorted@[t] == #[trigger] procedures@[i] && is_first_at(sorted@, t),
            decreases sorted@.len() - j,
        {
            let p = &sorted[j];
            let keep = procedures.len() == 0 || procedures[procedures.len() - 1].start_rva != p.start_rva;
            proof {
                assert(sorted@.take(j + 1) =~= sorted@.take(j as int).push(*p));
                assert forall|a: u32| has_start(sorted@.take(j + 1), a) <==> (has_start(sorted@.take(j as int), a)
                    || p.start_rva == a) by {
                    if has_start(sorted@.take(j + 1), a) {
                        let t = choose|t: int| 0 <= t < j + 1 && #[trigger] sorted@.take(j + 1)[t].start_rva == a;
                        if t < j {
                            assert(sorted@.take(j as int)[t].start_rva == a);
                        }
                    }
                    if has_start(sorted@.take(j as int), a) {
                        let t = choose|t: int| 0 <= t < j && #[trigger] sorted@.take(j as int)[t].start_rva == a;
                        assert(sorted@.take(j + 1)[t].start_rva == a);
                    }
                    if p.start_rva == a {
                        assert(sorted@.take(j + 1)[j as int].start_rva == a);
                    }
                }
            }
            if keep {
                let ghost before = procedures@;
                let q = Procedure {
                    start_rva: p.start_rva,
                    end_rva: p.end_rva,
                    module_index: p.module_index,
                    symbol_index: p.symbol_index,
                    end_symbol_index: p.end_symbol_index,
                    name: p.name.clone(),
                };
                procedures.push(q);
                proof {
                    assert(sorted@[j as int] == *p);
                    assert(q == *p);
                    if j > 0 {
                        assert(before.last().start_rva == sorted@[j - 1].start_rva);
                        assert(sorted@[j - 1].start_rva <= sorted@[j as int].start_rva);
                        assert(sorted@[j - 1].start_rva < p.start_rva);
                    }
                    assert forall|t: int| 0 <= t < j implies #[trigger] sorted@[t].start_rva < p.start_rva by {
                        assert(sorted@[t].start_rva <= sorted@[j - 1].start_rva);
                    }
                    assert(is_first_at(sorted@, j as int));
                    assert forall|i: int| 0 <= i < before.len() implies #[trigger] before[i].start_rva < q.start_rva by {
                        assert(has_start(before, before[i].start_rva));
                        assert(has_start(sorted@.take(j as int), before[i].start_rva));
                        let t = choose|t: int| 0 <= t < j && #[trigger] sorted@.take(j as int)[t].start_rva
                            == before[i].start_rva;
                        assert(sorted@[t].start_rva < p.start_rva);
                    }
                    assert forall|a: u32| has_start(procedures@, a) <==> (has_start(before, a) || q.start_rva == a) by {
                        if has_start(procedures@, a) {
                            let i = choose|i: int| 0 <= i < procedures@.len() && #[trigger] procedures@[i].start_rva == a;
                            if i < before.len() {
                                assert(before[i].start_rva == a);
                            }
                        }
                        if has_start(before, a) {
                            let i = choose|i: int| 0 <= i < before.len() && #[trigger] before[i].start_rva == a;
                            assert(procedures@[i].start_rva == a);
                        }
                        if q.start_rva == a {
                            assert(procedures@[before.len() as int].start_rva == a);
                        }
                    }
                    assert forall|i: int| 0 <= i < procedures@.len() implies exists|t: int|
                        0 <= t < j + 1 && sorted@[t] == #[trigger] procedures@[i] && is_first_at(sorted@, t) by {
                        if i == before.len() {
                            assert(sorted@[j as int] == procedures@[i]);
                        } else {
                            assert(procedures@[i] == before[i]);
                        }
                    }
                }
                proof {
                    assert forall|a: u32| #[trigger] has_start(procedures@, a) <==> has_start(sorted@.take(j + 1), a) by {
                        assert(has_start(before, a) <==> has_start(sorted@.take(j as int), a));
                    }
                }
            } else {
                proof {
                    assert(procedures@.last().start_rva == p.start_rva);
                    assert(procedures@[procedures@.len() - 1].start_rva == p.start_rva);
                    assert(has_start(procedures@, p.start_rva));
                    assert forall|a: u32| #[trigger] has_start(procedures@, a) <==> has_start(sorted@.take(j + 1), a) by {
                        assert(has_start(procedures@, a) <==> has_start(sorted@.take(j as int), a));
                    }
                }
            }
            j = j + 1;
        }
        proof {
            assert(sorted@.take(j as int) == sorted@);
            lemma_result_is_last_per_start(forward, rev, sorted@, procedures@, symbols@);
        }
        Addr2LineContext { procedures }
    }
}

/// Whether procedure `i` is the last one that starts at or below `probe`.
pub open spec fn last_starting_at_or_below(procs: Seq<Procedure>, probe: u32, i: int) -> bool {
    &&& 0 <= i < procs.len()
    &&& procs[i].start_rva <= probe
    &&& forall|j: int| i < j < procs.len() ==> #[trigger] procs[j].start_rva > probe
}

impl Addr2LineContext {
    /// The number of procedures.
    pub fn total_symbol_count(&self) -> (n: usize)
        ensures
            n == self.procedures().len(),
    {
        self.procedures.len()
    }

    /// The position of the procedure whose code contains `probe`: the last
    /// one starting at or below it, if the probe lies before its end.
    pub fn lookup_proc(&self, probe: u32) -> (r: Option<usize>)
        ensures
            match r {
                Some(i) => last_starting_at_or_below(self.procedures(), probe, i as int) && probe
                    < self.procedures()[i as int].end_rva,
                None => forall|i: int|
                    last_starting_at_or_below(self.procedures(), probe, i) ==> probe >= #[trigger] self.procedures()[i].end_rva,
            },
    {
        proof {
            use_type_invariant(self);
        }
        let procs = &self.procedures;
        let mut lo: usize = 0;
        let mut hi: usize = procs.len();
        while lo < hi
            invariant
                procs@ == self.procedures(),
                lo <= hi <= procs@.len(),
                strictly_increasing_starts(procs@),
                forall|i: int| 0 <= i < lo ==> #[trigger] procs@[i].start_rva <= probe,
                forall|i: int| hi <= i < procs@.len() ==> #[trigger] procs@[i].start_rva > probe,
            decreases hi - lo,
        {
            let mid = lo + (hi - lo) / 2;
            if procs[mid].start_rva <= probe {
                proof {
                    assert forall|i: int| 0 <= i <= mid implies #[trigger] procs@[i].start_rva <= probe by {
                        if i < mid {
                            assert(procs@[i].start_rva < procs@[mid as int].start_rva);
                        }
                    }
                }
                lo = mid + 1;
            } else {
                proof {
                    assert forall|i: int| mid <= i < procs@.len() implies #[trigger] procs@[i].start_rva > probe by {
                        if i > mid {
                            assert(procs@[mid as int].start_rva < procs@[i].start_rva);
                        }
                    }
                }
                hi = mid;
            }
        }
        if lo == 0 {
            proof {
                assert forall|i: int| last_starting_at_or_below(procs@, probe, i) implies probe >= #[trigger] procs@[i].end_rva by {
                    assert(procs@[i].start_rva > probe);
                }
            }
            return None;
        }
        let i = lo - 1;
        proof {
            assert(last_starting_at_or_below(procs@, probe, i as int));
            assert forall|k: int| last_starting_at_or_below(procs@, probe, k) implies k == i by {
                if k < i {
                    assert(procs@[i as int].start_rva > probe);
                }
                if k > i {
                    assert(procs@[k].start_rva > probe);
                }
            }
        }
        if probe >= procs[i].end_rva {
            return None;
        }
        Some(i)
    }

    /// The start address and name of the procedure whose code contains
    /// `probe`, if any (see `lookup_proc`).
    pub fn find_function(&self, probe: u32) -> (r: Option<(u32, String)>)
        ensures
            match r {
                Some((start, name)) => exists|i: int|
                    last_starting_at_or_below(self.procedures(), probe, i) && probe < #[trigger] self.procedures()[i].end_rva
                        && start == self.procedures()[i].start_rva && name@ == self.procedures()[i].name@,
                None => forall|i: int|
                    last_starting_at_or_below(self.procedures(), probe, i) ==> probe >= #[trigger] self.procedures()[i].end_rva,
            },
    {
        match self.lookup_proc(probe) {
            Some(i) => {
                let proc = &self.procedures[i];
                Some((proc.start_rva, proc.name.clone()))
            },
            None => None,
        }
    }
}

/// A filter keeps something exactly when some element passes it.
proof fn lemma_filter_nonempty<A>(s: Seq<A>, p: spec_fn(A) -> bool)
    ensures
        s.filter(p).len() > 0 <==> exists|t: int| 0 <= t < s.len() && #[trigger] p(s[t]),
    decreases s.len(),
{
    if s.len() > 0 {
        lemma_filter_nonempty(s.drop_last(), p);
        lemma_filter_push(s.drop_last(), s.last(), p);
        assert(s.drop_last().push(s.last()) == s);
        if exists|t: int| 0 <= t < s.len() && #[trigger] p(s[t]) {
            let t = choose|t: int| 0 <= t < s.len() && #[trigger] p(s[t]);
            if t < s.len() - 1 {
                assert(p(s.drop_last()[t]));
            }
        }
        if exists|t: int| 0 <= t < s.drop_last().len() && #[trigger] p(s.drop_last()[t]) {
            let t = choose|t: int| 0 <= t < s.drop_last().len() && #[trigger] p(s.drop_last()[t]);
            assert(p(s[t]));
        }
    } else {
        reveal_with_fuel(Seq::filter, 1);
    }
}

/// Selecting procedures by start address commutes with taking their plain values.
proof fn lemma_filter_views(s: Seq<Procedure>, a: u32)
    ensures
        s.map_values(procedure_views()).filter(starts_at(a)) == s.filter(procedure_starts_at(a)).map_values(
            procedure_views(),
        ),
    decreases s.len(),
{
    if s.len() == 0 {
        reveal_with_fuel(Seq::filter, 1);
        assert(s.map_values(procedure_views()) == Seq::<(u32, u32, u16, u32, u32, Seq<char>)>::empty());
    } else {
        let rest = s.drop_last();
        lemma_filter_views(rest, a);
        assert(rest.push(s.last()) == s);
        lemma_map_values_push(rest, s.last(), procedure_views());
        lemma_filter_push(rest.map_values(procedure_views()), procedure_view(s.last()), starts_at(a));
        lemma_filter_push(rest, s.last(), procedure_starts_at(a));
        lemma_map_values_push(rest.filter(procedure_starts_at(a)), s.last(), procedure_views());
    }
}

/// The sorted, first-per-address procedures are the last procedures per
/// address of the symbols' procedures.
proof fn lemma_result_is_last_per_start(
    forward: Seq<Procedure>,
    rev: Seq<Procedure>,
    sorted: Seq<Procedure>,
    procedures: Seq<Procedure>,
    symbols: Seq<ProcedureSymbol>,
)
    requires
        forward.map_values(procedure_views()) == procedures_of(symbols),
        rev == forward.reverse(),
        sorted.len() == rev.len(),
        forall|a: u32| #[trigger] sorted.filter(procedure_starts_at(a)) == rev.filter(procedure_starts_at(a)),
        forall|a: u32| #[trigger] has_start(procedures, a) <==> has_start(sorted, a),
        forall|i: int|
            0 <= i < procedures.len() ==> exists|t: int|
                0 <= t < sorted.len() && sorted[t] == #[trigger] procedures[i] && is_first_at(sorted, t),
    ensures
        forall|a: u32|
            #![trigger has_start(procedures, a)]
            #![trigger procedures_of(symbols).filter(starts_at(a))]
            has_start(procedures, a) <==> procedures_of(symbols).filter(starts_at(a)).len() > 0,
        forall|i: int|
            0 <= i < procedures.len() ==> procedure_view(#[trigger] procedures[i]) == procedures_of(symbols).filter(
                starts_at(procedures[i].start_rva),
            ).last(),
{
    assert forall|a: u32|
        #![trigger has_start(procedures, a)]
        #![trigger procedures_of(symbols).filter(starts_at(a))]
        has_start(procedures, a) <==> procedures_of(symbols).filter(starts_at(a)).len() > 0 by {
        let q = procedure_starts_at(a);
        lemma_filter_views(forward, a);
        lemma_filter_reverse(forward, q);
        lemma_filter_nonempty(sorted, q);
        assert(sorted.filter(q).len() == forward.filter(q).len());
        assert(has_start(procedures, a) == has_start(sorted, a));
        if has_start(sorted, a) {
            let t = choose|t: int| 0 <= t < sorted.len() && #[trigger] sorted[t].start_rva == a;
            assert(q(sorted[t]));
        }
        if procedures_of(symbols).filter(starts_at(a)).len() > 0 {
            let t = choose|t: int| 0 <= t < sorted.len() && #[trigger] q(sorted[t]);
            assert(sorted[t].start_rva == a);
        }
    }
    assert forall|i: int| 0 <= i < procedures.len() implies procedure_view(#[trigger] procedures[i])
        == procedures_of(symbols).filter(starts_at(procedures[i].start_rva)).last() by {
        let a = procedures[i].start_rva;
        let q = procedure_starts_at(a);
        let t = choose|t: int| 0 <= t < sorted.len() && sorted[t] == procedures[i] && is_first_at(sorted, t);
        assert forall|u: int| 0 <= u < t implies !q(#[trigger] sorted[u]) by {
            assert(sorted[u].start_rva != sorted[t].start_rva);
        }
        lemma_filter_first(sorted, q, t);
        lemma_filter_reverse(forward, q);
        lemma_filter_views(forward, a);
        assert(forward.filter(q).reverse()[0] == forward.filter(q).last());
    }
}

/// Whether some procedure starts at `a`.
pub open spec fn has_start(procs: Seq<Procedure>, a: u32) -> bool {
    exists|i: int| 0 <= i < procs.len() && #[trigger] procs[i].start_rva == a
}

/// Whether position `t` of `procs` is the first with its start address.
pub open spec fn is_first_at(procs: Seq<Procedure>, t: int) -> bool {
    forall|u: int| 0 <= u < t ==> #[trigger] procs[u].start_rva != procs[t].start_rva
}


/// A line of a procedure: where its code starts (relative to the image), its
/// file (by its index in the module's line program) and its line.
pub struct LineInfo {
    pub start_rva: u32,
    pub file_index: u32,
    pub line_start: u32,
}

/// Where a frame is in the source: its file, by its index in the module's
/// line program, and its line.
pub struct FrameSpot {
    pub file_index: Option<u32>,
    pub line: Option<u32>,
}

/// The function of a frame: the procedure, by its name, or an inlined
/// function, by its id.
pub enum FrameFunction {
    Procedure(String),
    Inlinee(u32),
}

/// A frame before its names are resolved.
pub struct FrameSource {
    pub function: FrameFunction,
    pub location: Option<FrameSpot>,
}

/// The lines start at non-decreasing addresses.
pub open spec fn lines_sorted(lines: Seq<LineInfo>) -> bool {
    forall|i: int, j: int| 0 <= i <= j < lines.len() ==> #[trigger] lines[i].start_rva <= #[trigger] lines[j].start_rva
}

/// Whether line `i` is the last one that starts at or below `probe`.
pub open spec fn is_last_line_at_or_below(lines: Seq<LineInfo>, i: int, probe: u32) -> bool {
    &&& 0 <= i < lines.len()
    &&& lines[i].start_rva <= probe
    &&& forall|j: int| i < j < lines.len() ==> #[trigger] lines[j].start_rva > probe
}

/// Where the procedure's frame is: at the last line starting at or below
/// the probe, if there is one.
pub open spec fn line_location(lines: Seq<LineInfo>, probe: u32) -> Option<FrameSpot> {
    if exists|i: int| is_last_line_at_or_below(lines, i, probe) {
        let i = choose|i: int| is_last_line_at_or_below(lines, i, probe);
        Some(FrameSpot { file_index: Some(lines[i].file_index), line: Some(lines[i].line_start) })
    } else {
        None
    }
}

/// Whether a range is at `depth` and starts at or below `probe`.
pub open spec fn starts_by(r: InlineRange, depth: u16, probe: u32) -> bool {
    r.call_depth == depth && r.start_rva <= probe
}

/// Whether range `i` (at or after `from`) is the last one at `depth` that
/// starts at or below `probe`.
pub open spec fn is_last_starting(ranges: Seq<InlineRange>, from: int, i: int, depth: u16, probe: u32) -> bool {
    &&& from <= i < ranges.len()
    &&& starts_by(ranges[i], depth, probe)
    &&& forall|j: int| i < j < ranges.len() ==> !starts_by(#[trigger] ranges[j], depth, probe)
}

/// The inline ranges that contain `probe`, one per depth from `depth` on,
/// each found after the one before: at each depth, the last range starting
/// at or below the probe, as long as the probe lies before its end.
pub open spec fn inline_chain(ranges: Seq<InlineRange>, from: int, depth: u16, probe: u32) -> Seq<InlineRange>
    decreases ranges.len() - from,
{
    if exists|i: int| is_last_starting(ranges, from, i, depth, probe) {
        let i = choose|i: int| is_last_starting(ranges, from, i, depth, probe);
        if from <= i < ranges.len() && probe < ranges[i].end_rva && depth < u16::MAX {
            seq![ranges[i]] + inline_chain(ranges, i + 1, (depth + 1) as u16, probe)
        } else {
            Seq::empty()
        }
    } else {
        Seq::empty()
    }
}

/// The frame of an inline range.
pub open spec fn range_frame() -> spec_fn(InlineRange) -> FrameSource {
    |r: InlineRange|
        FrameSource {
            function: FrameFunction::Inlinee(r.inlinee),
            location: Some(FrameSpot { file_index: r.file_index, line: r.line_start }),
        }
}

/// The frames of a probe in a procedure, outermost first: the procedure's
/// own, then one per inline range of the chain.
pub open spec fn frames_outer_first(name: String, lines: Seq<LineInfo>, ranges: Seq<InlineRange>, probe: u32) -> Seq<
    FrameSource,
> {
    seq![FrameSource { function: FrameFunction::Procedure(name), location: line_location(lines, probe) }]
        + inline_chain(ranges, 0, 0, probe).map_values(range_frame())
}

/// There is at most one last line at or below a probe.
proof fn lemma_last_line_unique(lines: Seq<LineInfo>, i: int, k: int, probe: u32)
    requires
        is_last_line_at_or_below(lines, i, probe),
        is_last_line_at_or_below(lines, k, probe),
    ensures
        i == k,
{
    if i < k {
        assert(lines[k].start_rva > probe);
    }
    if k < i {
        assert(lines[i].start_rva > probe);
    }
}

/// There is at most one last range at a depth starting at or below a probe.
proof fn lemma_last_starting_unique(ranges: Seq<InlineRange>, from: int, i: int, k: int, depth: u16, probe: u32)
    requires
        is_last_starting(ranges, from, i, depth, probe),
        is_last_starting(ranges, from, k, depth, probe),
    ensures
        i == k,
{
    if i < k {
        assert(!starts_by(ranges[k], depth, probe));
    }
    if k < i {
        assert(!starts_by(ranges[i], depth, probe));
    }
}

/// The line a probe falls on: the last one starting at or below it, found by
/// binary search (where several lines start at that address, the last of
/// them).
fn line_at(lines: &[LineInfo], probe: u32) -> (r: Option<usize>)
    ensures
        r matches Some(i) ==> i < lines@.len() && lines@[i as int].start_rva <= probe,
        lines_sorted(lines@) ==> match r {
            Some(i) => is_last_line_at_or_below(lines@, i as int, probe),
            None => forall|j: int| 0 <= j < lines@.len() ==> #[trigger] lines@[j].start_rva > probe,
        },
{
    let mut lo: usize = 0;
    let mut hi: usize = lines.len();
    while lo < hi
        invariant
            lo <= hi <= lines@.len(),
            lines_sorted(lines@) ==> forall|j: int| 0 <= j < lo ==> #[trigger] lines@[j].start_rva <= probe,
            lines_sorted(lines@) ==> forall|j: int| hi <= j < lines@.len() ==> #[trigger] lines@[j].start_rva > probe,
        decreases hi - lo,
    {
        let mid = lo + (hi - lo) / 2;
        if lines[mid].start_rva <= probe {
            proof {
                if lines_sorted(lines@) {
                    assert forall|j: int| 0 <= j <= mid implies #[trigger] lines@[j].start_rva <= probe by {
                        assert(lines@[j].start_rva <= lines@[mid as int].start_rva);
                    }
                }
            }
            lo = mid + 1;
        } else {
            proof {
                if lines_sorted(lines@) {
                    assert forall|j: int| mid <= j < lines@.len() implies #[trigger] lines@[j].start_rva > probe by {
                        assert(lines@[mid as int].start_rva <= lines@[j].start_rva);
                    }
                }
            }
            hi = mid;
        }
    }
    if lo == 0 {
        return None;
    }
    if lines[lo - 1].start_rva <= probe {
        Some(lo - 1)
    } else {
        None
    }
}

/// The range at `depth`, at or after `from`, that contains `probe`: the last
/// one at that depth starting at or below the probe, found by binary search
/// over ranges sorted by depth and then by start, if the probe lies before
/// its end.
fn range_at_depth(ranges: &[InlineRange], from: usize, depth: u16, probe: u32) -> (r: Option<usize>)
    requires
        from <= ranges@.len(),
    ensures
        r matches Some(i) ==> from <= i < ranges@.len() && starts_by(ranges@[i as int], depth, probe) && probe
            < ranges@[i as int].end_rva,
        sorted_by_depth_and_start(ranges@) ==> match r {
            Some(i) => is_last_starting(ranges@, from as int, i as int, depth, probe),
            None => forall|i: int|
                is_last_starting(ranges@, from as int, i, depth, probe) ==> probe >= #[trigger] ranges@[i].end_rva,
        },
{
    let mut lo: usize = from;
    let mut hi: usize = ranges.len();
    while lo < hi
        invariant
            from <= lo <= hi <= ranges@.len(),
            sorted_by_depth_and_start(ranges@) ==> forall|j: int|
                from <= j < lo ==> (#[trigger] ranges@[j]).call_depth < depth || starts_by(ranges@[j], depth, probe),
            sorted_by_depth_and_start(ranges@) ==> forall|j: int|
                hi <= j < ranges@.len() ==> (#[trigger] ranges@[j]).call_depth > depth || (ranges@[j].call_depth
                    == depth && ranges@[j].start_rva > probe),
        decreases hi - lo,
    {
        let mid = lo + (hi - lo) / 2;
        let r = &ranges[mid];
        if r.call_depth < depth || (r.call_depth == depth && r.start_rva <= probe) {
            proof {
                if sorted_by_depth_and_start(ranges@) {
                    assert forall|j: int| from <= j <= mid implies (#[trigger] ranges@[j]).call_depth < depth
                        || starts_by(ranges@[j], depth, probe) by {
                        assert(crate::windows::inline_ranges::depth_start_le(ranges@[j], ranges@[mid as int]));
                    }
                }
            }
            lo = mid + 1;
        } else {
            proof {
                if sorted_by_depth_and_start(ranges@) {
                    assert forall|j: int| mid <= j < ranges@.len() implies (#[trigger] ranges@[j]).call_depth > depth
                        || (ranges@[j].call_depth == depth && ranges@[j].start_rva > probe) by {
                        assert(crate::windows::inline_ranges::depth_start_le(ranges@[mid as int], ranges@[j]));
                    }
                }
            }
            hi = mid;
        }
    }
    proof {
        if sorted_by_depth_and_start(ranges@) {
            assert forall|j: int| lo <= j < ranges@.len() implies !starts_by(#[trigger] ranges@[j], depth, probe) by {}
        }
    }
    if lo == from {
        proof {
            if sorted_by_depth_and_start(ranges@) {
                assert forall|i: int| is_last_starting(ranges@, from as int, i, depth, probe) implies probe
                    >= #[trigger] ranges@[i].end_rva by {
                    assert(!starts_by(ranges@[i], depth, probe));
                }
            }
        }
        return None;
    }
    let cand = lo - 1;
    let c = &ranges[cand];
    if c.call_depth == depth && c.start_rva <= probe && probe < c.end_rva {
        return Some(cand);
    }
    proof {
        if sorted_by_depth_and_start(ranges@) {
            assert forall|i: int| is_last_starting(ranges@, from as int, i, depth, probe) implies probe
                >= #[trigger] ranges@[i].end_rva by {
                if i < cand {
                    assert(crate::windows::inline_ranges::depth_start_le(ranges@[i], ranges@[cand as int]));
                } else if i > cand {
                    assert(!starts_by(ranges@[i], depth, probe));
                }
            }
        }
    }
    None
}

impl Addr2LineContext {
    /// The procedure at a position of the list.
    pub fn procedure_at(&self, i: usize) -> (p: &Procedure)
        requires
            i < self.procedures().len(),
        ensures
            *p == self.procedures()[i as int],
    {
        &self.procedures[i]
    }

    /// The frames of `probe`, innermost first, with the start address of the
    /// procedure whose code contains it (the one `find_function` names), given
    /// that procedure's lines and inline ranges: the procedure's own frame,
    /// at the line the probe falls on, is the outermost; within it, one frame
    /// per depth of inlining, each at the range of that depth containing the
    /// probe that follows the range one level up (see `inline_chain`). With
    /// the lines sorted by address and the ranges by depth and then by start,
    /// as the module's line program and `compute_procedure_inline_ranges`
    /// give them, the frames are exactly those. The depth of inlining is
    /// counted in a `u16`: the frames stop at its last value.
    pub fn find_frames(&self, probe: u32, lines: &[LineInfo], inline_ranges: &[InlineRange]) -> (r: Option<
        (u32, Vec<FrameSource>),
    >)
        ensures
            match r {
                Some((start, frames)) => exists|i: int|
                    last_starting_at_or_below(self.procedures(), probe, i) && probe < #[trigger] self.procedures()[i].end_rva
                        && start == self.procedures()[i].start_rva && frames@.len() >= 1 && (lines_sorted(lines@)
                        && sorted_by_depth_and_start(inline_ranges@) ==> frames@ == frames_outer_first(
                        self.procedures()[i].name,
                        lines@,
                        inline_ranges@,
                        probe,
                    ).reverse()),
                None => forall|i: int|
                    last_starting_at_or_below(self.procedures(), probe, i) ==> probe >= #[trigger] self.procedures()[i].end_rva,
            },
    {
        let pi = match self.lookup_proc(probe) {
            Some(pi) => pi,
            None => {
                return None;
            },
        };
        let proc = &self.procedures[pi];
        let line_index = line_at(lines, probe);
        let location = match line_index {
            Some(li) => Some(FrameSpot { file_index: Some(lines[li].file_index), line: Some(lines[li].line_start) }),
            None => None,
        };
        proof {
            if lines_sorted(lines@) {
                match line_index {
                    Some(li) => {
                        let k = choose|i: int| is_last_line_at_or_below(lines@, i, probe);
                        lemma_last_line_unique(lines@, li as int, k, probe);
                    },
                    None => {
                        assert forall|i: int| !is_last_line_at_or_below(lines@, i, probe) by {
                            if 0 <= i < lines@.len() {
                                assert(lines@[i].start_rva > probe);
                            }
                        }
                    },
                }
                assert(location == line_location(lines@, probe));
            }
        }
        let ghost sorted = lines_sorted(lines@) && sorted_by_depth_and_start(inline_ranges@);
        let ghost total = frames_outer_first(proc.name, lines@, inline_ranges@, probe);
        let first = FrameSource { function: FrameFunction::Procedure(proc.name.clone()), location };
        let mut frames: Vec<FrameSource> = Vec::new();
        frames.push(first);
        let mut from: usize = 0;
        let mut depth: u16 = 0;
        loop
            invariant
                from <= inline_ranges@.len(),
                frames@.len() == depth + 1,
                sorted == (lines_sorted(lines@) && sorted_by_depth_and_start(inline_ranges@)),
                sorted ==> frames@ + inline_chain(inline_ranges@, from as int, depth, probe).map_values(range_frame())
                    == total,
            ensures
                frames@.len() >= 1,
                sorted ==> frames@ == total,
            decreases inline_ranges@.len() - from,
        {
            if depth == u16::MAX {
                proof {
                    if sorted {
                        assert(inline_chain(inline_ranges@, from as int, depth, probe) == Seq::<InlineRange>::empty());
                        assert(frames@ + Seq::<InlineRange>::empty().map_values(range_frame()) == frames@);
                    }
                }
                break;
            }
            match range_at_depth(inline_ranges, from, depth, probe) {
                Some(i) => {
                    let range = &inline_ranges[i];
                    let frame = FrameSource {
                        function: FrameFunction::Inlinee(range.inlinee),
                        location: Some(FrameSpot { file_index: range.file_index, line: range.line_start }),
                    };
                    proof {
                        if sorted {
                            let rest = inline_chain(inline_ranges@, i + 1, (depth + 1) as u16, probe);
                            let k = choose|k: int| is_last_starting(inline_ranges@, from as int, k, depth, probe);
                            lemma_last_starting_unique(inline_ranges@, from as int, i as int, k, depth, probe);
                            assert(inline_chain(inline_ranges@, from as int, depth, probe) == seq![*range] + rest);
                            assert((seq![*range] + rest).map_values(range_frame()) == seq![frame]
                                + rest.map_values(range_frame()));
                            assert(frames@.push(frame) + rest.map_values(range_frame()) == frames@ + (seq![frame]
                                + rest.map_values(range_frame())));
                        }
                    }
                    frames.push(frame);
                    from = i + 1;
                    depth = depth + 1;
                },
                None => {
                    proof {
                        if sorted {
                            assert(inline_chain(inline_ranges@, from as int, depth, probe) == Seq::<InlineRange>::empty());
                            assert(frames@ + Seq::<InlineRange>::empty().map_values(range_frame()) == frames@);
                        }
                    }
                    break;
                },
            }
        }
        let ghost outer = frames@;
        let mut inner_first: Vec<FrameSource> = Vec::new();
        while frames.len() > 0
            invariant
                frames@ == outer.take(frames@.len() as int),
                inner_first@ == outer.skip(frames@.len() as int).reverse(),
                frames@.len() <= outer.len(),
            decreases frames@.len(),
        {
            let ghost n = frames@.len();
            let f = frames.pop().unwrap();
            proof {
                assert(outer.skip(n - 1) == seq![f] + outer.skip(n as int));
                assert(outer.skip(n - 1).reverse() == outer.skip(n as int).reverse().push(f));
            }
            inner_first.push(f);
        }
        proof {
            assert(outer.skip(0) == outer);
            assert(self.procedures()[pi as int] == *proc);
        }
        Some((proc.start_rva, inner_first))
    }
}

} // verus!
