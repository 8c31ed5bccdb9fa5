//! Addresses as the debug information of one object sees them.
use vstd::prelude::*;

verus! {

/// An address that a caller asked about, and where it lies in the object
/// whose debug information is being read.
#[derive(Debug, Clone, Copy, PartialEq, Eq, Structural, PartialOrd, Ord)]
pub struct AddressPair {
    pub original_address: u32,
    pub address_in_this_object: u32,
}

impl AddressPair {
    /// The pair for an address of the object itself.
    pub fn same(address: u32) -> (p: Self)
        ensures
            p.original_address == address,
            p.address_in_this_object == address,
    {
        AddressPair { original_address: address, address_in_this_object: address }
    }
}

} // verus!
