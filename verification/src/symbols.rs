//! Looking up the symbol of an address in a list of (address, name) symbols:
//! the closest symbol at or below the address, where the last of several
//! symbols at the same address wins.
use crate::shared::SymbolicationResult;
use vstd::prelude::*;
use crate::seqs::{lemma_filter_push, lemma_map_values_push};

verus! {

/// Whether an entry is at address `a`.
pub open spec fn is_at<V>(a: u32) -> spec_fn((u32, V)) -> bool {
    |e: (u32, V)| e.0 == a
}

/// The entries of `s` at address `a`, in order.
pub open spec fn at_address<V>(s: Seq<(u32, V)>, a: u32) -> Seq<(u32, V)> {
    s.filter(is_at(a))
}

/// Position `t` is the last of a run of entries at one address.
pub open spec fn run_end<V>(s: Seq<(u32, V)>, t: int) -> bool {
    t + 1 == s.len() || s[t + 1].0 != s[t].0
}

/// From any position, the run of its address ends at some later position.
proof fn lemma_run_end_exists<V>(s: Seq<(u32, V)>, t: int) -> (u: int)
    requires
        0 <= t < s.len(),
    ensures
        t <= u < s.len(),
        run_end(s, u),
        s[u].0 == s[t].0,
    decreases s.len() - t,
{
    if !run_end(s, t) {
        lemma_run_end_exists(s, t + 1)
    } else {
        t
    }
}

/// The addresses of `s` never decrease.
pub open spec fn sorted_by_address<V>(s: Seq<(u32, V)>) -> bool {
    forall|i: int, j: int| 0 <= i < j < s.len() ==> #[trigger] s[i].0 <= #[trigger] s[j].0
}

/// The addresses of `s` strictly increase.
pub open spec fn strictly_increasing_addresses<V>(s: Seq<(u32, V)>) -> bool {
    forall|i: int, j: int| 0 <= i < j < s.len() ==> #[trigger] s[i].0 < #[trigger] s[j].0
}

/// Some entry of `s` is at address `a`.
pub open spec fn has_address<V>(s: Seq<(u32, V)>, a: u32) -> bool {
    exists|i: int| 0 <= i < s.len() && #[trigger] s[i].0 == a
}

/// `table` holds one entry per address of `symbols`, in increasing address
/// order, and that entry is the last entry of `symbols` at its address.
pub open spec fn is_symbol_table_of<V>(table: Seq<(u32, V)>, symbols: Seq<(u32, V)>) -> bool {
    &&& strictly_increasing_addresses(table)
    &&& forall|a: u32| has_address(table, a) <==> has_address(symbols, a)
    &&& forall|i: int| 0 <= i < table.len() ==> #[trigger] table[i] == at_address(symbols, table[i].0).last()
}

/// The position of the closest entry of an address-sorted table at or below
/// `address`: `None` when every entry is above it.
pub open spec fn closest_at_or_below<V>(table: Seq<(u32, V)>, address: u32, r: Option<usize>) -> bool {
    match r {
        None => forall|i: int| 0 <= i < table.len() ==> address < #[trigger] table[i].0,
        Some(i) => i < table.len() && table[i as int].0 <= address && (i + 1 < table.len() ==> address
            < table[i + 1].0),
    }
}

/// In a table with strictly increasing addresses, an address has one closest
/// entry at or below it (or none), so every lookup of it gives the same answer.
pub proof fn law_closest_symbol_is_unique<V>(table: Seq<(u32, V)>, address: u32, r1: Option<usize>, r2: Option<usize>)
    requires
        strictly_increasing_addresses(table),
        closest_at_or_below(table, address, r1),
        closest_at_or_below(table, address, r2),
    ensures
        r1 == r2,
{
    match (r1, r2) {
        (Some(i), Some(j)) => {
            if i < j {
                assert(table[i + 1].0 <= table[j as int].0);
            } else if j < i {
                assert(table[j + 1].0 <= table[i as int].0);
            }
        },
        (Some(i), None) => {
            assert(address < table[i as int].0);
        },
        (None, Some(j)) => {
            assert(address < table[j as int].0);
        },
        (None, None) => {},
    }
}

/// `slice::sort_by_key` on the address: the standard library documents this sort
/// as stable, so entries with equal addresses keep their relative order.
#[verifier::external_body]
pub(crate) fn sort_by_address(v: &mut Vec<(u32, String)>)
    ensures
        final(v)@.len() == old(v)@.len(),
        sorted_by_address(final(v)@),
        forall|a: u32| #[trigger] at_address(final(v)@, a) == at_address(old(v)@, a),
{
    v.sort_by_key(|entry| entry.0)
}

/// The last element that satisfies `p` is the one at the last position where `p` holds.
proof fn lemma_filter_last<A>(s: Seq<A>, p: spec_fn(A) -> bool, j: int)
    requires
        0 <= j < s.len(),
        p(s[j]),
        forall|t: int| j < t < s.len() ==> !p(#[trigger] s[t]),
    ensures
        s.filter(p).len() > 0,
        s.filter(p).last() == s[j],
    decreases s.len(),
{
    reveal_with_fuel(Seq::filter, 1);
    if j < s.len() - 1 {
        lemma_filter_last(s.drop_last(), p, j);
        assert(!p(s.last()));
    }
}

/// An address occurs in `s` exactly when `s` has entries at it.
pub proof fn lemma_has_address_filter<V>(s: Seq<(u32, V)>, a: u32)
    ensures
        has_address(s, a) <==> at_address(s, a).len() > 0,
{
    let p = is_at::<V>(a);
    if has_address(s, a) {
        let i = choose|i: int| 0 <= i < s.len() && #[trigger] s[i].0 == a;
        s.lemma_filter_contains(p, i);
    }
    if at_address(s, a).len() > 0 {
        s.lemma_filter_pred(p, 0);
        let e = at_address(s, a)[0];
        assert(s.filter(p).contains(e));
        s.lemma_filter_contains_rev(p, e);
    }
}

/// Builds the symbol table of a list of symbols: sorted by address, one entry
/// per address, the last symbol at each address winning.
pub fn symbol_table_from_symbols(symbols: Vec<(u32, String)>) -> (table: Vec<(u32, String)>)
    ensures
        is_symbol_table_of(table@, symbols@),
{
    let ghost original = symbols@;
    let mut sorted = symbols;
    sort_by_address(&mut sorted);
    let mut table: Vec<(u32, String)> = Vec::new();
    let mut i: usize = 0;
    while i < sorted.len()
        invariant
            i <= sorted@.len(),
            sorted_by_address(sorted@),
            forall|a: u32| #[trigger] at_address(sorted@, a) == at_address(original, a),
            strictly_increasing_addresses(table@),
            i < sorted@.len() && table@.len() > 0 ==> table@.last().0 < sorted@[i as int].0,
            forall|a: u32| has_address(table@, a) <==> exists|t: int| 0 <= t < i && run_end(sorted@, t) && #[trigger] sorted@[t].0 == a,
            forall|k: int| 0 <= k < table@.len() ==> #[trigger] table@[k] == at_address(original, table@[k].0).last(),
        decreases sorted@.len() - i,
    {
        let address = sorted[i].0;
        let is_last_of_run = i + 1 == sorted.len() || sorted[i + 1].0 != address;
        if is_last_of_run {
            let name = sorted[i].1.clone();
            let ghost before = table@;
            proof {
                let p = is_at::<String>(address);
                assert forall|t: int| i < t < sorted@.len() implies !p(#[trigger] sorted@[t]) by {
                    assert(sorted@[i as int + 1].0 <= sorted@[t].0);
                }
                lemma_filter_last(sorted@, p, i as int);
            }
            table.push((address, name));
            proof {
                assert(run_end(sorted@, i as int));
                assert(table@.last() == sorted@[i as int]);
                assert(at_address(sorted@, address) == at_address(original, address));
                assert(table@[before.len() as int] == at_address(original, table@[before.len() as int].0).last());
                assert forall|k: int| 0 <= k < table@.len() implies #[trigger] table@[k] == at_address(original, table@[k].0).last() by {
                    if k < before.len() {
                        assert(table@[k] == before[k]);
                    }
                }
                assert forall|a: u32| has_address(table@, a) <==> exists|t: int| 0 <= t < i + 1 && run_end(sorted@, t) && #[trigger] sorted@[t].0 == a by {
                    if has_address(table@, a) {
                        let k = choose|k: int| 0 <= k < table@.len() && #[trigger] table@[k].0 == a;
                        if k < before.len() {
                            assert(before[k].0 == a);
                            assert(has_address(before, a));
                        } else {
                            assert(sorted@[i as int].0 == a);
                        }
                    }
                    if exists|t: int| 0 <= t < i + 1 && run_end(sorted@, t) && #[trigger] sorted@[t].0 == a {
                        let t = choose|t: int| 0 <= t < i + 1 && run_end(sorted@, t) && #[trigger] sorted@[t].0 == a;
                        if t < i {
                            assert(has_address(before, a));
                            let k = choose|k: int| 0 <= k < before.len() && #[trigger] before[k].0 == a;
                            assert(table@[k].0 == a);
                        } else {
                            assert(table@[before.len() as int].0 == a);
                        }
                    }
                }
                assert forall|x: int, y: int| 0 <= x < y < table@.len() implies #[trigger] table@[x].0 < #[trigger] table@[y].0 by {
                    if y == before.len() {
                        assert(before[x].0 <= before.last().0);
                    }
                }
                if i + 1 < sorted@.len() {
                    assert(sorted@[i as int].0 <= sorted@[i + 1].0);
                }
            }
        } else {
            proof {
                assert forall|a: u32| has_address(table@, a) <==> exists|t: int| 0 <= t < i + 1 && run_end(sorted@, t) && #[trigger] sorted@[t].0 == a by {
                    if exists|t: int| 0 <= t < i + 1 && run_end(sorted@, t) && #[trigger] sorted@[t].0 == a {
                        let t = choose|t: int| 0 <= t < i + 1 && run_end(sorted@, t) && #[trigger] sorted@[t].0 == a;
                        assert(t != i);
                    }
                }
            }
        }
        i = i + 1;
    }
    proof {
        assert forall|a: u32| has_address(table@, a) <==> has_address(original, a) by {
            lemma_has_address_filter(sorted@, a);
            lemma_has_address_filter(original, a);
            if has_address(sorted@, a) {
                let t = choose|t: int| 0 <= t < sorted@.len() && #[trigger] sorted@[t].0 == a;
                let u = lemma_run_end_exists(sorted@, t);
                assert(0 <= u < i && run_end(sorted@, u) && sorted@[u].0 == a);
            }
            if has_address(table@, a) {
                let t = choose|t: int| 0 <= t < i && run_end(sorted@, t) && #[trigger] sorted@[t].0 == a;
                assert(has_address(sorted@, a));
            }
        }
    }
    table
}

/// Finds the closest entry at or below `address` in a table sorted by address.
pub fn closest_symbol_index(table: &[(u32, String)], address: u32) -> (r: Option<usize>)
    requires
        strictly_increasing_addresses(table@),
    ensures
        closest_at_or_below(table@, address, r),
{
    // The number of entries at or below `address`.
    let mut lo: usize = 0;
    let mut hi: usize = table.len();
    while lo < hi
        invariant
            lo <= hi <= table@.len(),
            strictly_increasing_addresses(table@),
            forall|i: int| 0 <= i < lo ==> #[trigger] table@[i].0 <= address,
            forall|i: int| hi <= i < table@.len() ==> address < #[trigger] table@[i].0,
        decreases hi - lo,
    {
        let mid = lo + (hi - lo) / 2;
        if table[mid].0 <= address {
            lo = mid + 1;
        } else {
            hi = mid;
        }
    }
    if lo == 0 {
        None
    } else {
        Some(lo - 1)
    }
}

/// The text that stands for the symbol of an address below every symbol.
pub open spec fn before_first_symbol() -> Seq<char> {
    "<before first symbol>"@
}

/// The symbol that a symbol table gives an address: the closest entry at or
/// below it, or `<before first symbol>` at the address itself when every
/// entry is above it.
pub open spec fn symbol_in_table(table: Seq<(u32, String)>, address: u32) -> (u32, Seq<char>) {
    if exists|i: usize| closest_at_or_below(table, address, Some(i)) {
        let i = choose|i: usize| closest_at_or_below(table, address, Some(i));
        (table[i as int].0, table[i as int].1@)
    } else {
        (address, before_first_symbol())
    }
}

/// The symbol that a list of symbols gives an address, through its symbol
/// table (see `is_symbol_table_of`).
proof fn lemma_symbol_of_lookup(table: Seq<(u32, String)>, address: u32, r: Option<usize>)
    requires
        strictly_increasing_addresses(table),
        closest_at_or_below(table, address, r),
    ensures
        symbol_in_table(table, address) == match r {
            Some(i) => (table[i as int].0, table[i as int].1@),
            None => (address, before_first_symbol()),
        },
{
    if exists|i: usize| closest_at_or_below(table, address, Some(i)) {
        let i = choose|i: usize| closest_at_or_below(table, address, Some(i));
        law_closest_symbol_is_unique(table, address, r, Some(i));
    }
}

/// Fills a result for `addresses` from a list of (address, name) symbols: the
/// total symbol count is the number of distinct symbol addresses, and every
/// address gets the closest symbol at or below it (the last one listed at that
/// address), or `<before first symbol>` at the address itself when there is none.
pub fn symbolication_result_for_addresses<R: SymbolicationResult>(addresses: &[u32], symbols: Vec<(u32, String)>) -> (r: R)
    requires
        R::accepts_addresses(addresses@),
    ensures
        forall|a: u32| addresses@.contains(a) ==> #[trigger] r.has_symbol(a),
        R::keeps_symbols() ==> exists|table: Seq<(u32, String)>|
            {
                &&& is_symbol_table_of(table, symbols@)
                &&& r.symbol_count_of() == (table.len() as u32)
                &&& forall|a: u32| addresses@.contains(a) ==> #[trigger] r.symbol_of(a) == Some(symbol_in_table(table, a))
            },
{
    let table = symbol_table_from_symbols(symbols);
    let mut result = R::for_addresses(addresses);
    let ghost fresh = result;
    result.set_total_symbol_count(table.len() as u32);
    assert forall|a: u32| addresses@.contains(a) implies #[trigger] result.expects(a) by {
        assert(fresh.expects(a));
    }
    let mut i: usize = 0;
    while i < addresses.len()
        invariant
            i <= addresses@.len(),
            strictly_increasing_addresses(table@),
            forall|a: u32| addresses@.contains(a) ==> #[trigger] result.expects(a),
            forall|t: int| 0 <= t < i ==> #[trigger] result.has_symbol(addresses@[t]),
            R::keeps_symbols() ==> result.symbol_count_of() == (table@.len() as u32),
            R::keeps_symbols() ==> forall|t: int|
                0 <= t < i ==> #[trigger] result.symbol_of(addresses@[t]) == Some(symbol_in_table(table@, addresses@[t])),
        decreases addresses@.len() - i,
    {
        let address = addresses[i];
        assert(addresses@.contains(address));
        let ghost before = result;
        let found = closest_symbol_index(table.as_slice(), address);
        proof {
            lemma_symbol_of_lookup(table@, address, found);
        }
        match found {
            None => {
                let name = "<before first symbol>";
                proof {
                    reveal_strlit("<before first symbol>");
                }
                result.add_address_symbol(address, address, name);
            },
            Some(index) => result.add_address_symbol(address, table[index].0, table[index].1.as_str()),
        }
        assert forall|t: int| 0 <= t < i + 1 implies #[trigger] result.has_symbol(addresses@[t]) by {
            if t < i {
                assert(before.has_symbol(addresses@[t]));
            }
        }
        proof {
            if R::keeps_symbols() {
                assert forall|t: int| 0 <= t < i + 1 implies #[trigger] result.symbol_of(addresses@[t]) == Some(
                    symbol_in_table(table@, addresses@[t]),
                ) by {
                    if t < i && addresses@[t] != address {
                        assert(before.symbol_of(addresses@[t]) == Some(symbol_in_table(table@, addresses@[t])));
                    }
                }
            }
        }
        assert forall|a: u32| addresses@.contains(a) implies #[trigger] result.expects(a) by {
            assert(before.expects(a));
        }
        i = i + 1;
    }
    proof {
        assert forall|a: u32| addresses@.contains(a) implies #[trigger] result.has_symbol(a) by {
            let t = choose|t: int| 0 <= t < addresses@.len() && addresses@[t] == a;
            assert(result.has_symbol(addresses@[t]));
        }
        if R::keeps_symbols() {
            assert forall|a: u32| addresses@.contains(a) implies #[trigger] result.symbol_of(a) == Some(
                symbol_in_table(table@, a),
            ) by {
                let t = choose|t: int| 0 <= t < addresses@.len() && addresses@[t] == a;
                assert(result.symbol_of(addresses@[t]) == Some(symbol_in_table(table@, addresses@[t])));
            }
        }
    }
    result
}

/// A symbol of an object file, as far as the symbol list goes: its address,
/// whether it is a text (code) symbol, and its name when it can be read.
pub struct ObjectSymbol {
    pub address: u64,
    pub is_text: bool,
    pub name: Option<String>,
}

/// An exported function of an object file: its address, and its name when it
/// is valid UTF-8.
pub struct ObjectExport {
    pub address: u64,
    pub name: Option<String>,
}

/// Whether a symbol goes into the symbol list: a text symbol with a name.
pub open spec fn is_listed_symbol(s: ObjectSymbol) -> bool {
    s.is_text && s.name is Some
}

/// A named text symbol, relative to the text segment (truncated to 32 bits).
pub open spec fn listed_symbol(s: ObjectSymbol, text_vmaddr: u64) -> (u32, Seq<char>) {
    ((s.address - text_vmaddr) as u32, s.name->0@)
}

/// A named export, relative to the image base (truncated to 32 bits).
pub open spec fn listed_export(e: ObjectExport, image_base: u64) -> (u32, Seq<char>) {
    ((e.address - image_base) as u32, e.name->0@)
}

/// Which symbols go into the symbol list.
pub open spec fn listed_symbols() -> spec_fn(ObjectSymbol) -> bool {
    |s: ObjectSymbol| is_listed_symbol(s)
}

/// A listed symbol's entry, relative to the text segment.
pub open spec fn symbol_entry(text_vmaddr: u64) -> spec_fn(ObjectSymbol) -> (u32, Seq<char>) {
    |s: ObjectSymbol| listed_symbol(s, text_vmaddr)
}

/// Which exports go into the symbol list: those with a name.
pub open spec fn named_exports() -> spec_fn(ObjectExport) -> bool {
    |e: ObjectExport| e.name is Some
}

/// A named export's entry, relative to the image base.
pub open spec fn export_entry(image_base: u64) -> spec_fn(ObjectExport) -> (u32, Seq<char>) {
    |e: ObjectExport| listed_export(e, image_base)
}

/// An entry of the symbol list with its name as text.
pub open spec fn entry_view() -> spec_fn((u32, String)) -> (u32, Seq<char>) {
    |e: (u32, String)| (e.0, e.1@)
}

/// The symbol list of an object file: its named text symbols relative to the
/// text segment, in order, then (when the exports could be read) its exports
/// with a UTF-8 name relative to the image base, in order.
pub open spec fn symbol_list(
    symbols: Seq<ObjectSymbol>,
    text_vmaddr: u64,
    exports: Option<Seq<ObjectExport>>,
    image_base: u64,
) -> Seq<(u32, Seq<char>)> {
    let from_symbols = symbols.filter(listed_symbols()).map_values(symbol_entry(text_vmaddr));
    match exports {
        Some(exports) => from_symbols + exports.filter(named_exports()).map_values(export_entry(image_base)),
        None => from_symbols,
    }
}

/// The list of (address, name) symbols of an object file, from its symbols
/// (dynamic ones first, as the caller lists them) and its exports, when they
/// could be read.
pub fn object_to_map(
    symbols: &[ObjectSymbol],
    text_vmaddr: u64,
    exports: Option<&[ObjectExport]>,
    image_base: u64,
) -> (map: Vec<(u32, String)>)
    requires
        forall|i: int| 0 <= i < symbols@.len() && is_listed_symbol(#[trigger] symbols@[i]) ==> symbols@[i].address
            >= text_vmaddr,
        exports matches Some(e) ==> forall|i: int| 0 <= i < e@.len() && (#[trigger] e@[i]).name is Some ==> e@[i].address
            >= image_base,
    ensures
        map@.map_values(entry_view()) == symbol_list(
            symbols@,
            text_vmaddr,
            match exports {
                Some(e) => Some(e@),
                None => None,
            },
            image_base,
        ),
{
    let mut map: Vec<(u32, String)> = Vec::new();
    let mut i: usize = 0;
    while i < symbols.len()
        invariant
            i <= symbols@.len(),
            forall|k: int| 0 <= k < symbols@.len() && is_listed_symbol(#[trigger] symbols@[k]) ==> symbols@[k].address
                >= text_vmaddr,
            map@.map_values(entry_view()) == symbols@.take(i as int).filter(listed_symbols()).map_values(
                symbol_entry(text_vmaddr),
            ),
        decreases symbols@.len() - i,
    {
        let symbol = &symbols[i];
        let ghost before = map@;
        proof {
            assert(symbols@.take(i + 1) == symbols@.take(i as int).push(*symbol));
            lemma_filter_push(symbols@.take(i as int), *symbol, listed_symbols());
        }
        if symbol.is_text {
            if let Some(name) = &symbol.name {
                map.push(((symbol.address - text_vmaddr) as u32, name.clone()));
                proof {
                    lemma_map_values_push(before, map@.last(), entry_view());
                    assert(map@ == before.push(map@.last()));
                    lemma_map_values_push(
                        symbols@.take(i as int).filter(listed_symbols()),
                        *symbol,
                        symbol_entry(text_vmaddr),
                    );
                }
            }
        }
        i = i + 1;
    }
    assert(symbols@.take(i as int) == symbols@);
    let ghost from_symbols = map@.map_values(entry_view());
    if let Some(exports) = exports {
        let mut k: usize = 0;
        while k < exports.len()
            invariant
                k <= exports@.len(),
                forall|x: int| 0 <= x < exports@.len() && (#[trigger] exports@[x]).name is Some ==> exports@[x].address
                    >= image_base,
                map@.map_values(entry_view()) == from_symbols + exports@.take(k as int).filter(
                    named_exports(),
                ).map_values(export_entry(image_base)),
            decreases exports@.len() - k,
        {
            let export = &exports[k];
            let ghost before = map@;
            proof {
                assert(exports@.take(k + 1) == exports@.take(k as int).push(*export));
                lemma_filter_push(exports@.take(k as int), *export, named_exports());
            }
            if let Some(name) = &export.name {
                map.push(((export.address - image_base) as u32, name.clone()));
                proof {
                    lemma_map_values_push(before, map@.last(), entry_view());
                    assert(map@ == before.push(map@.last()));
                    lemma_map_values_push(
                        exports@.take(k as int).filter(named_exports()),
                        *export,
                        export_entry(image_base),
                    );
                    assert(from_symbols + exports@.take(k as int).filter(named_exports()).map_values(
                        export_entry(image_base),
                    ).push(export_entry(image_base)(*export)) == (from_symbols + exports@.take(k as int).filter(
                        named_exports(),
                    ).map_values(export_entry(image_base))).push(export_entry(image_base)(*export)));
                }
            }
            k = k + 1;
        }
        assert(exports@.take(k as int) == exports@);
    }
    map
}

} // verus!
