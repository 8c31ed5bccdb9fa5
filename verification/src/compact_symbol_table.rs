//! The "compact" symbol table of the Firefox profiler: sorted addresses, and
//! all names concatenated into one buffer with start positions.
use crate::shared::{AddressDebugInfo, SymbolicationResult};
use crate::symbols::{at_address, sort_by_address, sorted_by_address};
use vstd::prelude::*;
use vstd::utf8::encode_utf8;

verus! {

/// A "compact" representation of a symbol table.
///
/// The string for the address `addr[i]` is the UTF-8 text
/// `buffer[index[i] .. index[i + 1]]`.
pub struct CompactSymbolTable {
    /// The symbol addresses, as library-relative offsets in bytes, in ascending order.
    pub addr: Vec<u32>,
    /// For every address `addr[i]`, `index[i]` is the position where its
    /// string starts in the buffer, plus one extra index at the end which is
    /// `buffer.len()`.
    pub index: Vec<u32>,
    /// All names, UTF-8 encoded, concatenated in the order of their addresses.
    pub buffer: Vec<u8>,
}

/// `t` is `s` sorted by address, with the entries at each address in their order in `s`.
pub open spec fn is_stable_sort_by_address(t: Seq<(u32, String)>, s: Seq<(u32, String)>) -> bool {
    &&& t.len() == s.len()
    &&& sorted_by_address(t)
    &&& forall|a: u32| #[trigger] at_address(t, a) == at_address(s, a)
}

/// The UTF-8 bytes of all names of `entries`, concatenated in order.
pub open spec fn concatenated_names(entries: Seq<(u32, String)>) -> Seq<u8>
    decreases entries.len(),
{
    if entries.len() == 0 {
        Seq::empty()
    } else {
        concatenated_names(entries.drop_last()) + encode_utf8(entries.last().1@)
    }
}

/// The table lays out `entries` in order: their addresses, the start of each
/// name in the buffer (as `u32`, wrapping), and the concatenated names.
pub open spec fn lays_out(table: CompactSymbolTable, entries: Seq<(u32, String)>) -> bool {
    &&& table.addr@.len() == entries.len()
    &&& forall|i: int| 0 <= i < entries.len() ==> #[trigger] table.addr@[i] == entries[i].0
    &&& table.index@.len() == entries.len() + 1
    &&& forall|i: int| 0 <= i <= entries.len() ==> #[trigger] table.index@[i] == (concatenated_names(
        entries.take(i),
    ).len() as u32)
    &&& table.buffer@ == concatenated_names(entries)
}

/// `String::as_bytes`: the UTF-8 encoding of the string.
#[verifier::external_body]
fn string_bytes(s: &String) -> (b: &[u8])
    ensures
        b@ == encode_utf8(s@),
{
    s.as_bytes()
}

impl CompactSymbolTable {
    /// The table of a full symbol map: its entries sorted by address (entries
    /// at the same address keep their order), laid out one after the other.
    pub fn from_symbols(map: Vec<(u32, String)>) -> (t: Self)
        ensures
            exists|sorted: Seq<(u32, String)>| is_stable_sort_by_address(sorted, map@) && lays_out(t, sorted),
    {
        let ghost original = map@;
        let mut entries = map;
        sort_by_address(&mut entries);
        let mut addr: Vec<u32> = Vec::new();
        let mut index: Vec<u32> = Vec::new();
        let mut buffer: Vec<u8> = Vec::new();
        let mut i: usize = 0;
        while i < entries.len()
            invariant
                i <= entries@.len(),
                addr@.len() == i,
                index@.len() == i,
                forall|k: int| 0 <= k < i ==> #[trigger] addr@[k] == entries@[k].0,
                forall|k: int| 0 <= k < i ==> #[trigger] index@[k] == (concatenated_names(entries@.take(k)).len() as u32),
                buffer@ == concatenated_names(entries@.take(i as int)),
            decreases entries@.len() - i,
        {
            addr.push(entries[i].0);
            index.push(buffer.len() as u32);
            let bytes = string_bytes(&entries[i].1);
            buffer.extend_from_slice(bytes);
            proof {
                let taken = entries@.take(i + 1);
                assert(taken.drop_last() == entries@.take(i as int));
                assert(taken.last() == entries@[i as int]);
                assert(buffer@ =~= concatenated_names(taken));
            }
            i = i + 1;
        }
        index.push(buffer.len() as u32);
        let t = CompactSymbolTable { addr, index, buffer };
        proof {
            assert(entries@.take(entries@.len() as int) == entries@);
            assert(lays_out(t, entries@));
            assert(is_stable_sort_by_address(entries@, original));
        }
        t
    }
}

impl SymbolicationResult for CompactSymbolTable {
    open spec fn accepts_full_map() -> bool {
        true
    }

    /// A compact table is only built from a full symbol map.
    open spec fn accepts_addresses(addresses: Seq<u32>) -> bool {
        false
    }

    open spec fn expects(&self, address: u32) -> bool {
        false
    }

    open spec fn has_symbol(&self, address: u32) -> bool {
        false
    }

    /// A compact table holds the full map, not symbols per address.
    open spec fn keeps_symbols() -> bool {
        false
    }

    open spec fn symbol_of(&self, address: u32) -> Option<(u32, Seq<char>)> {
        None
    }

    open spec fn symbol_count_of(&self) -> int {
        self.addr@.len() as int
    }

    fn from_full_map(map: Vec<(u32, String)>) -> (t: Self)
        ensures
            exists|sorted: Seq<(u32, String)>| is_stable_sort_by_address(sorted, map@) && lays_out(t, sorted),
    {
        Self::from_symbols(map)
    }

    fn for_addresses(_addresses: &[u32]) -> (t: Self) {
        CompactSymbolTable { addr: Vec::new(), index: Vec::new(), buffer: Vec::new() }
    }

    fn add_address_symbol(&mut self, _address: u32, _symbol_address: u32, _symbol_name: &str) {
    }

    fn add_address_debug_info(&mut self, _address: u32, _info: AddressDebugInfo) {
    }

    fn set_total_symbol_count(&mut self, _total_symbol_count: u32) {
    }
}

} // verus!
