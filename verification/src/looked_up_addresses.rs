//! Results for a set of looked-up addresses: per address its symbol and, when
//! available, its inline frames; and the frames for a single address.
use crate::shared::{AddressDebugInfo, InlineStackFrame, SymbolicationResult};
use std::collections::BTreeMap;
use vstd::prelude::*;

verus! {

/// The symbol found for one address.
pub struct AddressResult {
    pub symbol_address: u32,
    pub symbol_name: String,
    pub inline_frames: Option<Vec<InlineStackFrame>>,
}

/// For every looked-up address, its result once a symbol has been supplied.
pub type AddressResults = BTreeMap<u32, Option<AddressResult>>;

/// The results for a set of addresses, and the number of symbols of the binary.
pub struct LookedUpAddresses {
    pub address_results: AddressResults,
    pub symbol_count: u32,
}

/// The name that the debug info gives for an address: the function of its
/// outermost frame, if that frame names one.
pub open spec fn outer_function_name(frames: Seq<InlineStackFrame>) -> Option<Seq<char>> {
    if frames.len() > 0 {
        match frames.last().function {
            Some(f) => Some(f@),
            None => None,
        }
    } else {
        None
    }
}

fn outer_function_name_of(frames: &Vec<InlineStackFrame>) -> (r: Option<String>)
    ensures
        match r {
            Some(s) => outer_function_name(frames@) == Some(s@),
            None => outer_function_name(frames@) is None,
        },
{
    let n = frames.len();
    if n == 0 {
        return None;
    }
    match &frames[n - 1].function {
        Some(f) => Some(f.clone()),
        None => None,
    }
}

impl SymbolicationResult for LookedUpAddresses {
    /// These results are only built for a set of addresses.
    open spec fn accepts_full_map() -> bool {
        false
    }

    open spec fn accepts_addresses(addresses: Seq<u32>) -> bool {
        true
    }

    open spec fn expects(&self, address: u32) -> bool {
        self.address_results@.contains_key(address)
    }

    open spec fn has_symbol(&self, address: u32) -> bool {
        self.address_results@.contains_key(address) && self.address_results@[address] is Some
    }

    open spec fn keeps_symbols() -> bool {
        true
    }

    open spec fn symbol_of(&self, address: u32) -> Option<(u32, Seq<char>)> {
        if self.address_results@.contains_key(address) {
            match self.address_results@[address] {
                Some(r) => Some((r.symbol_address, r.symbol_name@)),
                None => None,
            }
        } else {
            None
        }
    }

    open spec fn symbol_count_of(&self) -> int {
        self.symbol_count as int
    }

    fn from_full_map(_symbols: Vec<(u32, String)>) -> (r: Self) {
        LookedUpAddresses { address_results: BTreeMap::new(), symbol_count: 0 }
    }

    fn for_addresses(addresses: &[u32]) -> (r: Self)
        ensures
            r.address_results@.dom() == addresses@.to_set(),
            forall|a: u32| #[trigger] r.address_results@.contains_key(a) ==> r.address_results@[a] is None,
            r.symbol_count == 0,
    {
        let mut address_results: AddressResults = BTreeMap::new();
        let mut i: usize = 0;
        while i < addresses.len()
            invariant
                i <= addresses@.len(),
                address_results@.dom() == addresses@.take(i as int).to_set(),
                forall|a: u32| #[trigger] address_results@.contains_key(a) ==> address_results@[a] is None,
            decreases addresses@.len() - i,
        {
            address_results.insert(addresses[i], None);
            proof {
                let taken = addresses@.take(i + 1);
                assert(taken == addresses@.take(i as int).push(addresses@[i as int]));
                assert(address_results@.dom() =~= taken.to_set()) by {
                    assert forall|a: u32| address_results@.dom().contains(a) <==> taken.to_set().contains(a) by {
                        if a == addresses@[i as int] {
                            assert(taken[i as int] == a);
                        } else if address_results@.dom().contains(a) {
                            let k = choose|k: int| 0 <= k < i && addresses@.take(i as int)[k] == a;
                            assert(taken[k] == a);
                        } else if taken.to_set().contains(a) {
                            let k = choose|k: int| 0 <= k < i + 1 && taken[k] == a;
                            assert(addresses@.take(i as int)[k] == a);
                        }
                    }
                }
            }
            i = i + 1;
        }
        assert(addresses@.take(addresses@.len() as int) == addresses@);
        LookedUpAddresses { address_results, symbol_count: 0 }
    }

    fn add_address_symbol(&mut self, address: u32, symbol_address: u32, symbol_name: &str)
        ensures
            final(self).address_results@ == old(self).address_results@.insert(
                address,
                Some(
                    AddressResult {
                        symbol_address,
                        symbol_name: final(self).address_results@[address]->0.symbol_name,
                        inline_frames: None,
                    },
                ),
            ),
            final(self).address_results@[address]->0.symbol_name@ == symbol_name@,
            final(self).symbol_count == old(self).symbol_count,
    {
        self.address_results.insert(
            address,
            Some(AddressResult { symbol_address, symbol_name: symbol_name.to_owned(), inline_frames: None }),
        );
    }

    fn add_address_debug_info(&mut self, address: u32, info: AddressDebugInfo)
        ensures
            final(self).address_results@.dom() == old(self).address_results@.dom(),
            forall|a: u32| a != address && #[trigger] old(self).address_results@.contains_key(a)
                ==> final(self).address_results@[a] == old(self).address_results@[a],
            ({
                let before = old(self).address_results@[address]->0;
                let after = final(self).address_results@[address]->0;
                &&& after.symbol_address == before.symbol_address
                &&& after.inline_frames == Some(info.frames)
                &&& match outer_function_name(info.frames@) {
                    Some(name) => after.symbol_name@ == name,
                    None => after.symbol_name == before.symbol_name,
                }
            }),
            final(self).symbol_count == old(self).symbol_count,
    {
        let ghost before_map = self.address_results@;
        match self.address_results.remove(&address) {
            Some(Some(mut address_result)) => {
                if let Some(name) = outer_function_name_of(&info.frames) {
                    address_result.symbol_name = name;
                }
                address_result.inline_frames = Some(info.frames);
                self.address_results.insert(address, Some(address_result));
                assert(self.address_results@.dom() =~= before_map.dom());
            },
            _ => {
                // The requirement that a symbol was supplied rules this out.
                assert(false);
            },
        }
    }

    fn set_total_symbol_count(&mut self, total_symbol_count: u32)
        ensures
            final(self).address_results == old(self).address_results,
            final(self).symbol_count == total_symbol_count,
    {
        self.symbol_count = total_symbol_count;
    }
}

/// The frames found for one address.
pub struct FramesForSingleAddress {
    pub address: u32,
    pub frames: Option<Vec<InlineStackFrame>>,
}

impl SymbolicationResult for FramesForSingleAddress {
    /// These results are only built for a single address.
    open spec fn accepts_full_map() -> bool {
        false
    }

    open spec fn accepts_addresses(addresses: Seq<u32>) -> bool {
        addresses.len() == 1
    }

    open spec fn expects(&self, address: u32) -> bool {
        address == self.address
    }

    open spec fn has_symbol(&self, address: u32) -> bool {
        true
    }

    /// Only the frames of the one address are kept.
    open spec fn keeps_symbols() -> bool {
        false
    }

    open spec fn symbol_of(&self, address: u32) -> Option<(u32, Seq<char>)> {
        None
    }

    open spec fn symbol_count_of(&self) -> int {
        0
    }

    fn from_full_map(_symbols: Vec<(u32, String)>) -> (r: Self) {
        FramesForSingleAddress { address: 0, frames: None }
    }

    fn for_addresses(addresses: &[u32]) -> (r: Self)
        ensures
            r.address == addresses@[0],
            r.frames is None,
    {
        FramesForSingleAddress { address: addresses[0], frames: None }
    }

    fn add_address_symbol(&mut self, _address: u32, _symbol_address: u32, _symbol_name: &str)
        ensures
            final(self).address == old(self).address,
            final(self).frames == old(self).frames,
    {
    }

    fn add_address_debug_info(&mut self, _address: u32, info: AddressDebugInfo)
        ensures
            final(self).address == old(self).address,
            final(self).frames == Some(info.frames),
    {
        self.frames = Some(info.frames);
    }

    fn set_total_symbol_count(&mut self, _total_symbol_count: u32)
        ensures
            final(self).address == old(self).address,
            final(self).frames == old(self).frames,
    {
    }
}

} // verus!
