//! Symbol lookup for Windows binaries: which addresses fall in a range, and
//! the frames that the PDB line information gives.
pub mod addr2line;
pub mod inline_ranges;
pub mod pdb_symbols;

use uuid::Uuid;
use vstd::prelude::*;

verus! {

/// True when `s` is sorted in strictly increasing order.
pub open spec fn strictly_increasing(s: Seq<u32>) -> bool {
    forall|i: int, j: int| 0 <= i < j < s.len() ==> s[i] < s[j]
}

/// The number of elements of `s` that are smaller than `x`, found by binary
/// search; exact when `s` is sorted.
fn lower_bound(s: &[u32], x: u32) -> (r: usize)
    ensures
        r <= s@.len(),
        strictly_increasing(s@) ==> forall|i: int| 0 <= i < r ==> s@[i] < x,
        strictly_increasing(s@) ==> forall|i: int| r <= i < s@.len() ==> x <= s@[i],
{
    let mut lo: usize = 0;
    let mut hi: usize = s.len();
    while lo < hi
        invariant
            lo <= hi <= s@.len(),
            strictly_increasing(s@) ==> forall|i: int| 0 <= i < lo ==> s@[i] < x,
            strictly_increasing(s@) ==> forall|i: int| hi <= i < s@.len() ==> x <= s@[i],
        decreases hi - lo,
    {
        let mid = lo + (hi - lo) / 2;
        if s[mid] < x {
            proof {
                if strictly_increasing(s@) {
                    assert forall|i: int| 0 <= i < mid + 1 implies s@[i] < x by {
                        if i < mid {
                            assert(s@[i] < s@[mid as int]);
                        }
                    }
                }
            }
            lo = mid + 1;
        } else {
            proof {
                if strictly_increasing(s@) {
                    assert forall|i: int| mid <= i < s@.len() implies x <= s@[i] by {
                        if i > mid {
                            assert(s@[mid as int] < s@[i]);
                        }
                    }
                }
            }
            hi = mid;
        }
    }
    lo
}

/// The addresses in `range`, as the part of `addresses` between two binary
/// searches: always a contiguous part of `addresses`, and, when `addresses`
/// is sorted, exactly those in `range` (none when the range is empty or
/// inverted).
pub fn get_addresses_covered_by_range(addresses: &[u32], range: std::ops::Range<u32>) -> (r: &[u32])
    ensures
        exists|lo: int|
            0 <= lo && lo + r@.len() <= addresses@.len() && r@ == #[trigger] addresses@.subrange(lo, lo + r@.len()),
        strictly_increasing(addresses@) ==> strictly_increasing(r@),
        strictly_increasing(addresses@) ==> forall|x: u32|
            r@.contains(x) <==> (addresses@.contains(x) && range.start <= x < range.end),
{
    let start_index = lower_bound(addresses, range.start);
    let half_range = &addresses[start_index..addresses.len()];
    let len = lower_bound(half_range, range.end);
    let r = &half_range[0..len];
    assert(r@ == addresses@.subrange(start_index as int, start_index + len));
    proof {
        if strictly_increasing(addresses@) {
            assert(strictly_increasing(half_range@)) by {
                assert forall|i: int, j: int| 0 <= i < j < half_range@.len() implies half_range@[i] < half_range@[j] by {
                    assert(half_range@[i] == addresses@[start_index + i]);
                    assert(half_range@[j] == addresses@[start_index + j]);
                }
            }
            assert forall|i: int, j: int| 0 <= i < j < r@.len() implies r@[i] < r@[j] by {
                assert(r@[i] == half_range@[i]);
                assert(r@[j] == half_range@[j]);
            }
            assert forall|x: u32| r@.contains(x) implies (addresses@.contains(x) && range.start <= x < range.end) by {
                let k = choose|k: int| 0 <= k < r@.len() && r@[k] == x;
                assert(r@[k] == half_range@[k]);
                assert(addresses@[start_index + k] == x);
            }
            assert forall|x: u32| (addresses@.contains(x) && range.start <= x < range.end) implies r@.contains(x) by {
                let k = choose|k: int| 0 <= k < addresses@.len() && addresses@[k] == x;
                assert(k >= start_index);
                assert(half_range@[k - start_index] == x);
                assert(k - start_index < len);
                assert(r@[k - start_index] == x);
            }
        }
    }
    r
}

/// Where byte `i` of a UUID comes from in a PE signature: the first three
/// fields are stored little-endian there and big-endian in the UUID.
pub open spec fn pe_signature_source(i: int) -> int {
    if i < 4 {
        3 - i
    } else if i < 6 {
        9 - i
    } else if i < 8 {
        13 - i
    } else {
        i
    }
}

/// The bytes of the UUID of a PE signature, with its first three fields
/// turned to big-endian order.
pub fn pe_signature_bytes(identifier: &[u8; 16]) -> (data: [u8; 16])
    ensures
        forall|i: int| 0 <= i < 16 ==> #[trigger] data@[i] == identifier@[pe_signature_source(i)],
{
    let mut data = *identifier;
    data[0] = identifier[3];
    data[1] = identifier[2];
    data[2] = identifier[1];
    data[3] = identifier[0];
    data[4] = identifier[5];
    data[5] = identifier[4];
    data[6] = identifier[7];
    data[7] = identifier[6];
    data
}

/// The UUID that `Uuid::from_bytes` makes of sixteen bytes.
pub uninterp spec fn uuid_of_bytes(bytes: Seq<u8>) -> Uuid;

/// The sixteen bytes that `Uuid::as_bytes` gives of a UUID.
pub uninterp spec fn uuid_bytes_of(uuid: Uuid) -> Seq<u8>;

/// `Uuid::from_bytes`: the UUID with these bytes, a function of them alone;
/// the UUID holds the bytes as they are, so `as_bytes` gives them back.
#[verifier::external_body]
pub(crate) fn uuid_from_bytes(bytes: [u8; 16]) -> (u: Uuid)
    ensures
        u == uuid_of_bytes(bytes@),
        uuid_bytes_of(u) == bytes@,
{
    Uuid::from_bytes(bytes)
}

/// The bytes of the UUID of a PE signature.
pub open spec fn pe_uuid_bytes(identifier: Seq<u8>) -> Seq<u8> {
    Seq::new(16, |i: int| identifier[pe_signature_source(i)])
}

/// The UUID of a PE signature, whose first three fields are stored
/// little-endian (see `pe_signature_bytes`).
pub fn pe_signature_to_uuid(identifier: &[u8; 16]) -> (u: Uuid)
    ensures
        u == uuid_of_bytes(pe_uuid_bytes(identifier@)),
        uuid_bytes_of(u) == pe_uuid_bytes(identifier@),
{
    let bytes = pe_signature_bytes(identifier);
    assert(bytes@ =~= pe_uuid_bytes(identifier@));
    uuid_from_bytes(bytes)
}

} // verus!
