//! The symbols of a PDB file, once its streams are read: the breakpad ID it
//! answers to, its symbol map (public function symbols, then the procedures
//! of its modules), and the symbols of a set of addresses.
use crate::error::GetSymbolsError;
use crate::gecko_profile::{hex_lower, hex_upper_bytes, push_hex_lower, upper_hex_digit, uuid_bytes};
use crate::shared::{same_location, FileLocation, SymbolicationResult};
use crate::symbols::{
    at_address, has_address, is_at, lemma_has_address_filter, strictly_increasing_addresses,
    symbol_table_from_symbols,
};
use crate::text::{str_eq, string_push};
use crate::windows::addr2line::lemma_filter_reverse;
use crate::windows::{
    get_addresses_covered_by_range, pe_signature_to_uuid, pe_uuid_bytes, strictly_increasing, uuid_bytes_of,
};
use uuid::Uuid;
use vstd::prelude::*;

verus! {

/// The breakpad ID of a PDB: the bytes of its GUID in uppercase hex, then its
/// age in lowercase hex without leading zeros.
pub open spec fn pdb_id_text(guid: Uuid, age: u32) -> Seq<char> {
    hex_upper_bytes(uuid_bytes_of(guid)) + hex_lower(age as nat)
}

/// Formats the breakpad ID of a PDB from its GUID and its age.
pub fn pdb_breakpad_id(guid: &Uuid, age: u32) -> (s: String)
    ensures
        s@ == pdb_id_text(*guid, age),
{
    let bytes = uuid_bytes(guid);
    let mut s = String::new();
    let mut i: usize = 0;
    while i < 16
        invariant
            i <= 16,
            bytes@.len() == 16,
            s@ == hex_upper_bytes(bytes@.subrange(0, i as int)),
        decreases 16 - i,
    {
        let b = bytes[i];
        string_push(&mut s, upper_hex_digit(b / 16));
        string_push(&mut s, upper_hex_digit(b % 16));
        assert(bytes@.subrange(0, i + 1).drop_last() == bytes@.subrange(0, i as int));
        i = i + 1;
    }
    assert(bytes@.subrange(0, 16) == bytes@);
    push_hex_lower(&mut s, age as u64);
    s
}

/// The breakpad ID of a PE binary from the signature of its PDB information
/// (whose first three UUID fields are stored little-endian) and its age: the
/// same form as a PDB's own.
pub fn pe_breakpad_id(identifier: &[u8; 16], age: u32) -> (s: String)
    ensures
        s@ == hex_upper_bytes(pe_uuid_bytes(identifier@)) + hex_lower(age as nat),
{
    let uuid = pe_signature_to_uuid(identifier);
    pdb_breakpad_id(&uuid, age)
}

/// Checks that a PDB answers to the breakpad ID asked for: an
/// `UnmatchedBreakpadId` with the PDB's own ID and the one asked for when it
/// does not.
pub fn check_pdb_id(guid: &Uuid, age: u32, breakpad_id: &str) -> (r: Result<(), GetSymbolsError>)
    ensures
        r is Ok <==> pdb_id_text(*guid, age) == breakpad_id@,
        r matches Err(e) ==> e matches GetSymbolsError::UnmatchedBreakpadId(found, asked) && found@ == pdb_id_text(
            *guid,
            age,
        ) && asked@ == breakpad_id@,
{
    let pdb_id = pdb_breakpad_id(guid, age);
    if str_eq(pdb_id.as_str(), breakpad_id) {
        Ok(())
    } else {
        Err(GetSymbolsError::UnmatchedBreakpadId(pdb_id, breakpad_id.to_owned()))
    }
}

/// Checks the breakpad ID of a PE binary, when no PDB file gave its
/// symbols: an `UnmatchedBreakpadId` with the binary's own ID and the one
/// asked for when they differ.
pub fn check_pe_id(identifier: &[u8; 16], age: u32, breakpad_id: &str) -> (r: Result<(), GetSymbolsError>)
    ensures
        r is Ok <==> hex_upper_bytes(pe_uuid_bytes(identifier@)) + hex_lower(age as nat) == breakpad_id@,
        r matches Err(e) ==> e matches GetSymbolsError::UnmatchedBreakpadId(found, asked) && found@
            == hex_upper_bytes(pe_uuid_bytes(identifier@)) + hex_lower(age as nat) && asked@ == breakpad_id@,
{
    let expected = pe_breakpad_id(identifier, age);
    if str_eq(expected.as_str(), breakpad_id) {
        Ok(())
    } else {
        Err(GetSymbolsError::UnmatchedBreakpadId(expected, breakpad_id.to_owned()))
    }
}

/// The candidate PDB files of a PE binary that are worth opening, by their
/// positions, in order: all but those at the binary's own location.
pub fn pdb_candidates_to_try(candidates: &[FileLocation], binary: &FileLocation) -> (r: Vec<usize>)
    ensures
        forall|k: int, l: int| 0 <= k < l < r@.len() ==> r@[k] < r@[l],
        forall|k: int| 0 <= k < r@.len() ==> r@[k] < candidates@.len() && !same_location(candidates@[r@[k] as int], *binary),
        forall|i: int|
            0 <= i < candidates@.len() && !same_location(candidates@[i], *binary) ==> r@.contains(i as usize),
{
    let mut r: Vec<usize> = Vec::new();
    let mut i: usize = 0;
    while i < candidates.len()
        invariant
            i <= candidates@.len(),
            forall|k: int, l: int| 0 <= k < l < r@.len() ==> r@[k] < r@[l],
            forall|k: int| 0 <= k < r@.len() ==> r@[k] < i && !same_location(candidates@[r@[k] as int], *binary),
            forall|j: int| 0 <= j < i && !same_location(candidates@[j], *binary) ==> r@.contains(j as usize),
        decreases candidates@.len() - i,
    {
        if !candidates[i].same_as(binary) {
            let ghost before = r@;
            r.push(i);
            proof {
                assert forall|j: int| 0 <= j < i + 1 && !same_location(candidates@[j], *binary) implies r@.contains(
                    j as usize,
                ) by {
                    if j < i {
                        let k = choose|k: int| 0 <= k < before.len() && before[k] == j as usize;
                        assert(r@[k] == j as usize);
                    } else {
                        assert(r@[before.len() as int] == i);
                    }
                }
            }
        }
        i = i + 1;
    }
    r
}

/// The symbol that a PDB's symbol map holds at address `a`: the last public
/// function symbol there, or else the first procedure there.
pub open spec fn pdb_symbol_at(publics: Seq<(u32, String)>, procedures: Seq<(u32, String)>, a: u32) -> (u32, String) {
    if at_address(publics, a).len() > 0 {
        at_address(publics, a).last()
    } else {
        at_address(procedures, a).first()
    }
}

/// `m` is the symbol map of a PDB: one entry per address of its public
/// function symbols and procedures, in increasing address order, each the
/// symbol that `pdb_symbol_at` gives.
pub open spec fn is_pdb_symbol_map(m: Seq<(u32, String)>, publics: Seq<(u32, String)>, procedures: Seq<(u32, String)>) -> bool {
    &&& strictly_increasing_addresses(m)
    &&& forall|a: u32| #[trigger] has_address(m, a) <==> has_address(publics, a) || has_address(procedures, a)
    &&& forall|i: int| 0 <= i < m.len() ==> #[trigger] m[i] == pdb_symbol_at(publics, procedures, m[i].0)
}

/// The procedures in reverse order, then the public symbols: the last entry
/// at an address is the last public symbol there, or else the first procedure.
fn reversed_then(publics: &[(u32, String)], procedures: &[(u32, String)]) -> (v: Vec<(u32, String)>)
    ensures
        v@ == procedures@.reverse() + publics@,
{
    let mut v: Vec<(u32, String)> = Vec::new();
    let mut k: usize = procedures.len();
    while k > 0
        invariant
            k <= procedures@.len(),
            v@ == procedures@.subrange(k as int, procedures@.len() as int).reverse(),
        decreases k,
    {
        k = k - 1;
        let e = (procedures[k].0, procedures[k].1.clone());
        assert(e == procedures@[k as int]);
        v.push(e);
        assert(procedures@.subrange(k as int, procedures@.len() as int).reverse() =~= procedures@.subrange(
            k + 1,
            procedures@.len() as int,
        ).reverse().push(procedures@[k as int]));
    }
    assert(procedures@.subrange(0, procedures@.len() as int) == procedures@);
    let mut i: usize = 0;
    let ghost rev = v@;
    while i < publics.len()
        invariant
            i <= publics@.len(),
            v@ == rev + publics@.subrange(0, i as int),
        decreases publics@.len() - i,
    {
        let e = (publics[i].0, publics[i].1.clone());
        assert(e == publics@[i as int]);
        v.push(e);
        assert(publics@.subrange(0, i + 1) == publics@.subrange(0, i as int).push(publics@[i as int]));
        i = i + 1;
    }
    assert(publics@.subrange(0, publics@.len() as int) == publics@);
    v
}

/// The entries at an address of the reversed procedures followed by the
/// public symbols end with the symbol that `pdb_symbol_at` gives.
proof fn lemma_last_is_pdb_symbol(publics: Seq<(u32, String)>, procedures: Seq<(u32, String)>, a: u32)
    ensures
        at_address(procedures.reverse() + publics, a).len() > 0 <==> (has_address(publics, a) || has_address(
            procedures,
            a,
        )),
        at_address(procedures.reverse() + publics, a).len() > 0 ==> at_address(procedures.reverse() + publics, a).last()
            == pdb_symbol_at(publics, procedures, a),
{
    let p = is_at::<String>(a);
    Seq::filter_distributes_over_add(procedures.reverse(), publics, p);
    lemma_filter_reverse(procedures, p);
    lemma_has_address_filter(publics, a);
    lemma_has_address_filter(procedures, a);
    let rp = procedures.filter(p).reverse();
    let pp = publics.filter(p);
    assert(at_address(procedures.reverse() + publics, a) == rp + pp);
    if pp.len() > 0 {
        assert((rp + pp).last() == pp.last());
    } else if rp.len() > 0 {
        assert((rp + pp).last() == rp.last());
        assert(rp.last() == procedures.filter(p)[0]);
    }
}

/// The symbol map of a PDB, from its public function symbols and then the
/// procedures of its modules, in the order read: sorted by address, one
/// entry per address; at an address with public symbols the last of them,
/// else the first procedure there.
pub fn pdb_symbol_map(publics: &[(u32, String)], procedures: &[(u32, String)]) -> (m: Vec<(u32, String)>)
    ensures
        is_pdb_symbol_map(m@, publics@, procedures@),
{
    let combined = reversed_then(publics, procedures);
    let ghost c = combined@;
    let m = symbol_table_from_symbols(combined);
    proof {
        assert forall|a: u32| #[trigger] has_address(m@, a) <==> has_address(publics@, a) || has_address(procedures@, a) by {
            lemma_last_is_pdb_symbol(publics@, procedures@, a);
            lemma_has_address_filter(c, a);
        }
        assert forall|i: int| 0 <= i < m@.len() implies #[trigger] m@[i] == pdb_symbol_at(publics@, procedures@, m@[i].0) by {
            let a = m@[i].0;
            lemma_last_is_pdb_symbol(publics@, procedures@, a);
            lemma_has_address_filter(c, a);
            assert(has_address(m@, a));
        }
    }
    m
}

/// A procedure of a PDB module: where its code starts (relative to the
/// image), its length and its name as written out.
pub struct PdbProcedure {
    pub rva: u32,
    pub len: u32,
    pub name: String,
}

/// Whether a procedure's code covers address `a`.
pub open spec fn covers(p: PdbProcedure, a: u32) -> bool {
    p.rva <= a < p.rva + p.len
}

/// The last of the first `n` procedures whose code covers `a`, if any.
pub open spec fn last_covering(procedures: Seq<PdbProcedure>, n: int, a: u32) -> Option<int>
    decreases n,
{
    if n <= 0 {
        None
    } else if covers(procedures[n - 1], a) {
        Some(n - 1)
    } else {
        last_covering(procedures, n - 1, a)
    }
}

/// The symbol that the procedures give address `a`: the last one whose code
/// covers it, at its start.
pub open spec fn procedure_symbol(procedures: Seq<PdbProcedure>, n: int, a: u32) -> Option<(u32, Seq<char>)> {
    match last_covering(procedures, n, a) {
        Some(j) => Some((procedures[j].rva, procedures[j].name@)),
        None => None,
    }
}

/// The procedures as (address, name) entries.
pub open spec fn procedure_entries(procedures: Seq<PdbProcedure>) -> Seq<(u32, String)> {
    procedures.map_values(|p: PdbProcedure| (p.rva, p.name))
}

/// The symbols of a set of addresses from a PDB without debug info: each
/// procedure, in the order read, gives its start and name to the addresses
/// its code covers (a later one replacing an earlier one); the total symbol
/// count is the number of distinct addresses of the public symbols and the
/// procedures. With sorted addresses, the symbols are exactly those.
pub fn pdb_symbols_for_addresses<R: SymbolicationResult>(
    publics: &[(u32, String)],
    procedures: &[PdbProcedure],
    addresses: &[u32],
) -> (r: R)
    requires
        R::accepts_addresses(addresses@),
        forall|j: int| 0 <= j < procedures@.len() ==> procedures@[j].rva + procedures@[j].len <= u32::MAX,
    ensures
        R::keeps_symbols() ==> exists|m: Seq<(u32, String)>|
            #![trigger is_pdb_symbol_map(m, publics@, procedure_entries(procedures@))]
            is_pdb_symbol_map(m, publics@, procedure_entries(procedures@)) && r.symbol_count_of() == (m.len() as u32),
        R::keeps_symbols() && strictly_increasing(addresses@) ==> forall|a: u32|
            addresses@.contains(a) ==> #[trigger] r.symbol_of(a) == procedure_symbol(
                procedures@,
                procedures@.len() as int,
                a,
            ),
{
    let mut result = R::for_addresses(addresses);
    let mut j: usize = 0;
    while j < procedures.len()
        invariant
            j <= procedures@.len(),
            forall|k: int| 0 <= k < procedures@.len() ==> procedures@[k].rva + procedures@[k].len <= u32::MAX,
            forall|a: u32| addresses@.contains(a) ==> #[trigger] result.expects(a),
            R::keeps_symbols() && strictly_increasing(addresses@) ==> forall|a: u32|
                addresses@.contains(a) ==> #[trigger] result.symbol_of(a) == procedure_symbol(procedures@, j as int, a),
        decreases procedures@.len() - j,
    {
        let p = &procedures[j];
        let covered = get_addresses_covered_by_range(addresses, p.rva..p.rva + p.len);
        let ghost lo = choose|lo: int|
            0 <= lo && lo + covered@.len() <= addresses@.len() && covered@ == #[trigger] addresses@.subrange(
                lo,
                lo + covered@.len(),
            );
        let ghost before = result;
        let mut k: usize = 0;
        while k < covered.len()
            invariant
                k <= covered@.len(),
                0 <= lo && lo + covered@.len() <= addresses@.len(),
                covered@ == addresses@.subrange(lo, lo + covered@.len()),
                forall|a: u32| addresses@.contains(a) ==> #[trigger] result.expects(a),
                R::keeps_symbols() && strictly_increasing(addresses@) ==> strictly_increasing(covered@),
                R::keeps_symbols() && strictly_increasing(addresses@) ==> forall|a: u32|
                    covered@.contains(a) <==> (addresses@.contains(a) && p.rva <= a < p.rva + p.len),
                R::keeps_symbols() && strictly_increasing(addresses@) ==> forall|a: u32|
                    addresses@.contains(a) ==> #[trigger] result.symbol_of(a) == (if covered@.take(k as int).contains(a) {
                        Some((p.rva, p.name@))
                    } else {
                        before.symbol_of(a)
                    }),
            decreases covered@.len() - k,
        {
            let address = covered[k];
            assert(addresses@.contains(address)) by {
                assert(addresses@[lo + k] == address);
            }
            let ghost mid = result;
            result.add_address_symbol(address, p.rva, p.name.as_str());
            proof {
                if R::keeps_symbols() && strictly_increasing(addresses@) {
                    assert forall|a: u32| addresses@.contains(a) implies #[trigger] result.symbol_of(a) == (if covered@.take(
                        k + 1,
                    ).contains(a) {
                        Some((p.rva, p.name@))
                    } else {
                        before.symbol_of(a)
                    }) by {
                        assert(covered@.take(k + 1) == covered@.take(k as int).push(address));
                        if a != address {
                            assert(mid.symbol_of(a) == result.symbol_of(a));
                            assert(covered@.take(k + 1).contains(a) == covered@.take(k as int).contains(a));
                        } else {
                            assert(covered@.take(k + 1)[k as int] == a);
                        }
                    }
                }
            }
            assert forall|a: u32| addresses@.contains(a) implies #[trigger] result.expects(a) by {
                assert(mid.expects(a));
            }
            k = k + 1;
        }
        proof {
            if R::keeps_symbols() && strictly_increasing(addresses@) {
                assert(covered@.take(covered@.len() as int) == covered@);
                assert forall|a: u32| addresses@.contains(a) implies #[trigger] result.symbol_of(a) == procedure_symbol(
                    procedures@,
                    j + 1,
                    a,
                ) by {
                    assert(before.symbol_of(a) == procedure_symbol(procedures@, j as int, a));
                    assert(procedures@[j as int] == *p);
                }
            }
        }
        j = j + 1;
    }
    let mut entries: Vec<(u32, String)> = Vec::new();
    let mut t: usize = 0;
    while t < procedures.len()
        invariant
            t <= procedures@.len(),
            entries@ == procedure_entries(procedures@.subrange(0, t as int)),
        decreases procedures@.len() - t,
    {
        let e = (procedures[t].rva, procedures[t].name.clone());
        entries.push(e);
        assert(procedures@.subrange(0, t + 1) == procedures@.subrange(0, t as int).push(procedures@[t as int]));
        assert(entries@ =~= procedure_entries(procedures@.subrange(0, t + 1)));
        t = t + 1;
    }
    assert(procedures@.subrange(0, procedures@.len() as int) == procedures@);
    let m = pdb_symbol_map(publics, entries.as_slice());
    let ghost before_count = result;
    result.set_total_symbol_count(m.len() as u32);
    proof {
        if R::keeps_symbols() && strictly_increasing(addresses@) {
            assert forall|a: u32| addresses@.contains(a) implies #[trigger] result.symbol_of(a) == procedure_symbol(
                procedures@,
                procedures@.len() as int,
                a,
            ) by {
                assert(before_count.symbol_of(a) == procedure_symbol(procedures@, procedures@.len() as int, a));
            }
        }
    }
    result
}

} // verus!
