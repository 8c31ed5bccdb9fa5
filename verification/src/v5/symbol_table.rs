//! A symbol table built from a map of symbol addresses to names, and the
//! lookup of addresses in it.
use crate::symbols::{
    at_address, before_first_symbol, closest_symbol_index, has_address, is_at,
    lemma_has_address_filter, strictly_increasing_addresses, symbol_table_from_symbols,
};
use std::collections::HashMap;
use vstd::prelude::*;
use vstd::std_specs::hash::spec_hash_map_iter;
use vstd::std_specs::iter::IteratorSpec;

verus! {

/// The symbol that an address falls into.
pub struct AddressResult {
    pub symbol_name: String,
    pub symbol_address: u32,
}

/// Symbols ordered by address, one per address.
pub struct SymbolTable {
    symbols: Vec<(u32, String)>,
}

/// `(symbol_address, symbol_name)` is what the lookup of `address` gives in the
/// address-ordered `entries`: the closest entry at or below `address`, or
/// `<before first symbol>` at `address` itself when every entry is above it.
pub open spec fn symbol_for_address(
    entries: Seq<(u32, String)>,
    address: u32,
    symbol_address: u32,
    symbol_name: Seq<char>,
) -> bool {
    ||| {
        &&& forall|i: int| 0 <= i < entries.len() ==> address < #[trigger] entries[i].0
        &&& symbol_address == address
        &&& symbol_name == before_first_symbol()
    }
    ||| exists|i: int|
        0 <= i < entries.len() && #[trigger] entries[i].0 <= address && (i + 1 < entries.len()
            ==> address < entries[i + 1].0) && symbol_address == entries[i].0 && symbol_name
            == entries[i].1@
}

/// Looking up an address at which a symbol starts gives that symbol.
pub proof fn law_symbol_address_gives_its_symbol(
    entries: Seq<(u32, String)>,
    i: int,
    symbol_address: u32,
    symbol_name: Seq<char>,
)
    requires
        strictly_increasing_addresses(entries),
        0 <= i < entries.len(),
        symbol_for_address(entries, entries[i].0, symbol_address, symbol_name),
    ensures
        symbol_address == entries[i].0,
        symbol_name == entries[i].1@,
{
    let a = entries[i].0;
    if forall|k: int| 0 <= k < entries.len() ==> a < #[trigger] entries[k].0 {
        assert(a < entries[i].0);
    }
    let k = choose|k: int|
        0 <= k < entries.len() && #[trigger] entries[k].0 <= a && (k + 1 < entries.len() ==> a < entries[k
            + 1].0) && symbol_address == entries[k].0 && symbol_name == entries[k].1@;
    if k < i {
        assert(entries[k + 1].0 <= entries[i].0);
    } else if k > i {
        assert(entries[i].0 < entries[k].0);
    }
}

impl SymbolTable {
    #[verifier::type_invariant]
    spec fn wf(&self) -> bool {
        strictly_increasing_addresses(self.symbols@)
    }

    /// The symbols, in increasing address order.
    pub closed spec fn entries(&self) -> Seq<(u32, String)> {
        self.symbols@
    }

    /// Holds the entries of `map`, ordered by address.
    pub fn from_map(map: HashMap<u32, String>) -> (t: Self)
        ensures
            strictly_increasing_addresses(t.entries()),
            forall|a: u32| #[trigger] map@.contains_key(a) <==> has_address(t.entries(), a),
            forall|i: int|
                0 <= i < t.entries().len() ==> map@[#[trigger] t.entries()[i].0] == t.entries()[i].1,
    {
        broadcast use vstd::std_specs::hash::group_hash_axioms;
        broadcast use vstd::std_specs::hash::axiom_spec_hash_map_iter;

        let mut symbols: Vec<(u32, String)> = Vec::new();
        let ghost pairs = spec_hash_map_iter(&map).remaining();
        for (address, symbol) in it: map.iter()
            invariant
                symbols@.len() == it.index(),
                it.seq() == pairs,
                forall|j: int|
                    0 <= j < it.index() ==> #[trigger] symbols@[j] == (*pairs[j].0, *pairs[j].1),
        {
            symbols.push((*address, symbol.clone()));
        }
        let table = symbol_table_from_symbols(symbols);
        proof {
            assert forall|a: u32| map@.contains_key(a) implies has_address(symbols@, a) by {
                assert(pairs.contains((&a, &map@[a])));
                let j = choose|j: int| 0 <= j < pairs.len() && pairs[j] == (&a, &map@[a]);
                assert(symbols@[j] == (*pairs[j].0, *pairs[j].1));
            }
            assert forall|a: u32| has_address(symbols@, a) implies map@.contains_key(a) by {
                let j = choose|j: int| 0 <= j < symbols@.len() && #[trigger] symbols@[j].0 == a;
                assert(symbols@[j] == (*pairs[j].0, *pairs[j].1));
                assert(map@.contains_key(*pairs[j].0));
            }
            assert forall|i: int| 0 <= i < table@.len() implies map@[#[trigger] table@[i].0]
                == table@[i].1 by {
                let a = table@[i].0;
                assert(has_address(table@, a));
                lemma_has_address_filter(symbols@, a);
                let e = at_address(symbols@, a).last();
                assert(at_address(symbols@, a).contains(e));
                symbols@.lemma_filter_contains_rev(is_at(a), e);
                let j = choose|j: int| 0 <= j < symbols@.len() && symbols@[j] == e;
                assert(symbols@[j] == (*pairs[j].0, *pairs[j].1));
                assert(map@.contains_key(*pairs[j].0) && map@[*pairs[j].0] == *pairs[j].1);
            }
        }
        SymbolTable { symbols: table }
    }

    /// Looks up each address: the result maps every requested address to the
    /// closest symbol at or below it.
    pub fn look_up_addresses(&self, addresses: Vec<u32>) -> (results: HashMap<u32, AddressResult>)
        ensures
            forall|a: u32| #[trigger] results@.contains_key(a) <==> addresses@.contains(a),
            forall|a: u32|
                #[trigger] results@.contains_key(a) ==> symbol_for_address(
                    self.entries(),
                    a,
                    results@[a].symbol_address,
                    results@[a].symbol_name@,
                ),
    {
        broadcast use vstd::std_specs::hash::group_hash_axioms;

        proof {
            use_type_invariant(self);
        }
        let mut results: HashMap<u32, AddressResult> = HashMap::new();
        let mut k: usize = 0;
        while k < addresses.len()
            invariant
                k <= addresses@.len(),
                strictly_increasing_addresses(self.symbols@),
                forall|a: u32| #[trigger] results@.contains_key(a) <==> addresses@.take(k as int).contains(a),
                forall|a: u32|
                    #[trigger] results@.contains_key(a) ==> symbol_for_address(
                        self.symbols@,
                        a,
                        results@[a].symbol_address,
                        results@[a].symbol_name@,
                    ),
            decreases addresses@.len() - k,
        {
            let address = addresses[k];
            let result = match closest_symbol_index(self.symbols.as_slice(), address) {
                None => AddressResult {
                    symbol_address: address,
                    symbol_name: String::from_str("<before first symbol>"),
                },
                Some(index) => {
                    let (symbol_address, symbol_name) = &self.symbols[index];
                    AddressResult { symbol_address: *symbol_address, symbol_name: symbol_name.clone() }
                },
            };
            proof {
                reveal_strlit("<before first symbol>");
            }
            assert(symbol_for_address(self.symbols@, address, result.symbol_address, result.symbol_name@));
            results.insert(address, result);
            assert(addresses@.take(k + 1) == addresses@.take(k as int).push(address));
            assert forall|a: u32| addresses@.take(k + 1).contains(a) <==> (addresses@.take(
                k as int,
            ).contains(a) || a == address) by {
                if addresses@.take(k + 1).contains(a) && a != address {
                    let j = choose|j: int| 0 <= j < k + 1 && #[trigger] addresses@.take(k + 1)[j] == a;
                    assert(addresses@.take(k as int)[j] == a);
                }
                if a == address {
                    assert(addresses@.take(k + 1)[k as int] == a);
                }
            }
            k = k + 1;
        }
        assert(addresses@.take(k as int) == addresses@);
        results
    }
}

} // verus!
