//! Mach-O pieces that work on plain data: ULEB128 numbers, the function-starts
//! list of `LC_FUNCTION_STARTS`, and the addresses grouped per function name
//! that are looked up in external object files.
use std::collections::HashMap;
use vstd::prelude::*;
use crate::seqs::{lemma_filter_push, lemma_map_values_push};
use crate::symbols::ObjectSymbol;
use crate::error::GetSymbolsError;
use crate::text::{str_eq, texts};

verus! {

/// Decodes the ULEB128 number that starts at position `i` of `bytes`, with the
/// bits read so far in `acc`: the value and the position after its last byte.
/// Each byte gives its low 7 bits, least significant group first; a byte with
/// the high bit clear ends the number. The tenth byte may only be 0 or 1.
pub open spec fn uleb128_from(bytes: Seq<u8>, i: nat, acc: u64) -> Option<(u64, nat)>
    decreases bytes.len() - i,
{
    if i >= bytes.len() || i > 9 {
        None
    } else {
        let b = bytes[i as int];
        if i == 9 && b != 0 && b != 1 {
            None
        } else {
            let next = acc | (((b & 0x7f) as u64) << ((7 * i) as u64));
            if b & 0x80 == 0 {
                Some((next, i + 1))
            } else {
                uleb128_from(bytes, i + 1, next)
            }
        }
    }
}

/// The ULEB128 number at the start of `bytes`, and how many bytes it takes.
pub open spec fn uleb128(bytes: Seq<u8>) -> Option<(u64, nat)> {
    uleb128_from(bytes, 0, 0)
}

proof fn lemma_uleb128_length(bytes: Seq<u8>, i: nat, acc: u64)
    ensures
        uleb128_from(bytes, i, acc) matches Some((v, n)) ==> i < n <= bytes.len(),
    decreases bytes.len() - i,
{
    if i < bytes.len() && i <= 9 {
        let b = bytes[i as int];
        let next = acc | (((b & 0x7f) as u64) << ((7 * i) as u64));
        lemma_uleb128_length(bytes, i + 1, next);
    }
}

/// How many bytes the ULEB128 encoding of `v` takes: one per 7 bits, at
/// least one.
pub open spec fn uleb128_len(v: u64) -> nat {
    if v < 0x80 {
        1
    } else if v < 0x4000 {
        2
    } else if v < 0x20_0000 {
        3
    } else if v < 0x1000_0000 {
        4
    } else if v < 0x8_0000_0000 {
        5
    } else if v < 0x400_0000_0000 {
        6
    } else if v < 0x2_0000_0000_0000 {
        7
    } else if v < 0x100_0000_0000_0000 {
        8
    } else if v < 0x8000_0000_0000_0000 {
        9
    } else {
        10
    }
}

/// Byte `j` of the ULEB128 encoding of `v`: bits `7j` to `7j + 6`, with the
/// high bit set on every byte but the last.
pub open spec fn uleb128_byte(v: u64, j: nat) -> u8 {
    let group = (v >> ((7 * j) as u64)) & 0x7f;
    (if j + 1 < uleb128_len(v) {
        group | 0x80
    } else {
        group
    }) as u8
}

/// The ULEB128 encoding of `v`.
pub open spec fn uleb128_encoding(v: u64) -> Seq<u8> {
    Seq::new(uleb128_len(v), |j: int| uleb128_byte(v, j as nat))
}

proof fn lemma_uleb128_bits(v: u64, s: u64)
    requires
        s <= 56,
    ensures
        (v & (((1u64 << s) - 1) as u64)) | (((v >> s) & 0x7f) << s) == v & (((1u64 << (s + 7)) - 1) as u64),
{
    assert((v & (((1u64 << s) - 1) as u64)) | (((v >> s) & 0x7f) << s) == v & (((1u64 << (s + 7)) - 1) as u64)) by (bit_vector)
        requires
            s <= 56,
    ;
}

proof fn lemma_uleb128_below(v: u64, t: u64)
    requires
        t <= 63,
        v < (1u64 << t),
    ensures
        v & (((1u64 << t) - 1) as u64) == v,
{
    assert(v & (((1u64 << t) - 1) as u64) == v) by (bit_vector)
        requires
            t <= 63,
            v < (1u64 << t),
    ;
}

/// Decoding from byte `i` of an encoding followed by anything, with the bits
/// below `7i` already read, gives back the number and the encoding's length.
proof fn lemma_uleb128_decodes(v: u64, rest: Seq<u8>, i: nat, acc: u64)
    requires
        i < uleb128_len(v),
        acc == v & (((1u64 << ((7 * i) as u64)) - 1) as u64),
    ensures
        uleb128_from(uleb128_encoding(v) + rest, i, acc) == Some((v, uleb128_len(v))),
    decreases 10 - i,
{
    let bytes = uleb128_encoding(v) + rest;
    let n = uleb128_len(v);
    let s = (7 * i) as u64;
    let b = bytes[i as int];
    assert(b == uleb128_byte(v, i));
    let group = (v >> s) & 0x7f;
    assert(group < 0x80) by (bit_vector)
        requires
            group == (v >> s) & 0x7f,
    ;
    assert(group | 0x80 < 0x100) by (bit_vector)
        requires
            group < 0x80,
    ;
    assert((b & 0x7f) as u64 == group) by {
        if i + 1 < n {
            assert(((group | 0x80) as u8) & 0x7f == group as u8) by (bit_vector)
                requires
                    group < 0x80,
            ;
        } else {
            assert((group as u8) & 0x7f == group as u8) by (bit_vector)
                requires
                    group < 0x80,
            ;
        }
    }
    assert((b & 0x80 == 0) == (i + 1 == n)) by {
        if i + 1 < n {
            assert(((group | 0x80) as u8) & 0x80 != 0) by (bit_vector)
                requires
                    group < 0x80,
            ;
        } else {
            assert((group as u8) & 0x80 == 0) by (bit_vector)
                requires
                    group < 0x80,
            ;
        }
    }
    let next = acc | (((b & 0x7f) as u64) << s);
    if i == 9 {
        assert(n == 10);
        assert(v >> 63 <= 1) by (bit_vector);
        assert(((v >> 63) & 0x7f) == v >> 63) by (bit_vector);
        assert(b == 0 || b == 1);
        assert((v & (((1u64 << 63) - 1) as u64)) | (((v >> 63) & 0x7f) << 63) == v) by (bit_vector);
        assert(next == v);
    } else {
        lemma_uleb128_bits(v, s);
        assert(next == v & (((1u64 << ((7 * (i + 1)) as u64)) - 1) as u64));
        if i + 1 == n {
            assert(v < (1u64 << ((7 * (i + 1)) as u64))) by {
                assert(1u64 << 7 == 0x80) by (bit_vector);
                assert(1u64 << 14 == 0x4000) by (bit_vector);
                assert(1u64 << 21 == 0x20_0000) by (bit_vector);
                assert(1u64 << 28 == 0x1000_0000) by (bit_vector);
                assert(1u64 << 35 == 0x8_0000_0000) by (bit_vector);
                assert(1u64 << 42 == 0x400_0000_0000) by (bit_vector);
                assert(1u64 << 49 == 0x2_0000_0000_0000) by (bit_vector);
                assert(1u64 << 56 == 0x100_0000_0000_0000) by (bit_vector);
                assert(1u64 << 63 == 0x8000_0000_0000_0000) by (bit_vector);
            }
            lemma_uleb128_below(v, (7 * (i + 1)) as u64);
        } else {
            lemma_uleb128_decodes(v, rest, i + 1, next);
        }
    }
}

/// Decoding the ULEB128 encoding of a number, whatever follows it, gives the
/// number back and the length of its encoding.
pub proof fn law_uleb128_round_trip(v: u64, rest: Seq<u8>)
    ensures
        uleb128(uleb128_encoding(v) + rest) == Some((v, uleb128_len(v))),
{
    assert(0u64 == v & (((1u64 << 0u64) - 1) as u64)) by (bit_vector);
    lemma_uleb128_decodes(v, rest, 0, 0);
}

/// Reads a ULEB128 number from the start of `bytes`; returns it with the bytes after it.
pub fn read_uleb128(bytes: &[u8]) -> (r: Option<(u64, &[u8])>)
    ensures
        match r {
            Some((v, rest)) => uleb128(bytes@) matches Some((w, n)) && v == w && rest@ == bytes@.skip(n as int),
            None => uleb128(bytes@) is None,
        },
{
    let mut result: u64 = 0;
    let mut shift: u64 = 0;
    let mut i: usize = 0;
    while i < bytes.len()
        invariant
            i <= bytes@.len(),
            i <= 9,
            shift == 7 * i,
            uleb128(bytes@) == uleb128_from(bytes@, i as nat, result),
        decreases bytes@.len() - i,
    {
        let byte = bytes[i];
        if shift == 63 && byte != 0x00 && byte != 0x01 {
            return None;
        }
        let low_bits = (byte & 0x7f) as u64;
        result = result | (low_bits << shift);
        if byte & 0x80 == 0 {
            let rest = &bytes[i + 1..bytes.len()];
            return Some((result, rest));
        }
        assert(i < 9) by {
            if i == 9 {
                assert(byte == 0 || byte == 1);
                assert(byte & 0x80 == 0) by (bit_vector)
                    requires
                        byte == 0 || byte == 1,
                ;
            }
        }
        shift = shift + 7;
        i = i + 1;
    }
    None
}

/// The deltas between function starts: ULEB128 numbers up to the first zero
/// (or up to the first bytes that do not decode).
pub open spec fn function_start_deltas(bytes: Seq<u8>) -> Seq<u64>
    decreases bytes.len(),
{
    match uleb128(bytes) {
        Some((d, n)) => if d != 0 && 0 < n <= bytes.len() {
            seq![d] + function_start_deltas(bytes.skip(n as int))
        } else {
            Seq::empty()
        },
        None => Seq::empty(),
    }
}

/// The running sums of `deltas`, starting from `start`.
pub open spec fn running_sums(deltas: Seq<u64>, start: int) -> Seq<int>
    decreases deltas.len(),
{
    if deltas.len() == 0 {
        Seq::empty()
    } else {
        seq![start + deltas[0]] + running_sums(deltas.drop_first(), start + deltas[0])
    }
}

/// Decodes the data of `LC_FUNCTION_STARTS`: a ULEB128 list of deltas between
/// function addresses, ended by a zero delta. Returns the addresses (each
/// truncated to 32 bits). The addresses must fit in 64 bits.
pub fn function_starts_from_data(data: &[u8]) -> (starts: Vec<u32>)
    requires
        forall|k: int|
            0 <= k < running_sums(function_start_deltas(data@), 0).len() ==> #[trigger] running_sums(
                function_start_deltas(data@),
                0,
            )[k] <= u64::MAX,
    ensures
        starts@.len() == running_sums(function_start_deltas(data@), 0).len(),
        forall|k: int|
            0 <= k < starts@.len() ==> #[trigger] starts@[k] == (running_sums(function_start_deltas(data@), 0)[k]
                as u32),
{
    let ghost sums = running_sums(function_start_deltas(data@), 0);
    let mut function_starts: Vec<u32> = Vec::new();
    let mut prev_address: u64 = 0;
    let mut bytes = data;
    loop
        invariant
            forall|k: int| 0 <= k < sums.len() ==> #[trigger] sums[k] <= u64::MAX,
            function_starts@.len() + running_sums(function_start_deltas(bytes@), prev_address as int).len()
                == sums.len(),
            forall|k: int|
                0 <= k < running_sums(function_start_deltas(bytes@), prev_address as int).len()
                    ==> #[trigger] running_sums(function_start_deltas(bytes@), prev_address as int)[k]
                    == sums[function_starts@.len() + k],
            forall|k: int| 0 <= k < function_starts@.len() ==> #[trigger] function_starts@[k] == (sums[k] as u32),
        ensures
            function_starts@.len() == sums.len(),
            forall|k: int| 0 <= k < function_starts@.len() ==> #[trigger] function_starts@[k] == (sums[k] as u32),
        decreases bytes@.len(),
    {
        let ghost before = bytes@;
        match read_uleb128(bytes) {
            Some((delta, rest)) => {
                proof {
                    lemma_uleb128_length(before, 0, 0);
                }
                if delta == 0 {
                    assert(function_start_deltas(before).len() == 0);
                    assert(running_sums(function_start_deltas(before), prev_address as int).len() == 0);
                    break;
                }
                let ghost ds = function_start_deltas(before);
                let ghost rs = running_sums(ds, prev_address as int);
                assert(ds == seq![delta] + function_start_deltas(rest@));
                assert(ds.drop_first() == function_start_deltas(rest@));
                assert(rs[0] == prev_address + delta);
                assert(rs[0] == sums[function_starts@.len() as int]);
                let address = prev_address + delta;
                function_starts.push(address as u32);
                bytes = rest;
                prev_address = address;
                assert forall|k: int|
                    0 <= k < running_sums(function_start_deltas(bytes@), prev_address as int).len()
                        implies #[trigger] running_sums(function_start_deltas(bytes@), prev_address as int)[k]
                        == sums[function_starts@.len() + k] by {
                    assert(rs[k + 1] == running_sums(function_start_deltas(bytes@), prev_address as int)[k]);
                }
            },
            None => {
                assert(function_start_deltas(before).len() == 0);
                assert(running_sums(function_start_deltas(before), prev_address as int).len() == 0);
                break;
            },
        }
    }
    function_starts
}

/// An address under a function, with its offset from the function's start.
#[derive(Clone, Copy)]
pub struct AddressWithOffset {
    pub original_relative_address: u32,
    pub offset_from_function_start: u32,
}

/// Addresses grouped by the name of the function they lie in. Names are byte
/// strings; each name occurs at most once.
pub struct FunctionsWithAddresses {
    entries: Vec<(Vec<u8>, Vec<AddressWithOffset>)>,
}

impl View for FunctionsWithAddresses {
    type V = Map<Seq<u8>, Seq<AddressWithOffset>>;

    closed spec fn view(&self) -> Map<Seq<u8>, Seq<AddressWithOffset>> {
        Map::new(
            |k: Seq<u8>| exists|i: int| 0 <= i < self.entries@.len() && #[trigger] self.entries@[i].0@ == k,
            |k: Seq<u8>|
                {
                    let i = choose|i: int| 0 <= i < self.entries@.len() && #[trigger] self.entries@[i].0@ == k;
                    self.entries@[i].1@
                },
        )
    }
}

/// `<[u8] as PartialEq>::eq`: two byte strings are equal when they hold the same bytes.
#[verifier::external_body]
pub(crate) fn bytes_eq(a: &[u8], b: &[u8]) -> (r: bool)
    ensures
        r == (a@ == b@),
{
    a == b
}

/// `<[u8]>::to_vec`: a copy of the bytes.
#[verifier::external_body]
fn bytes_to_vec(a: &[u8]) -> (v: Vec<u8>)
    ensures
        v@ == a@,
{
    a.to_vec()
}

/// `str::as_bytes`: the UTF-8 encoding of the text.
#[verifier::external_body]
fn str_bytes(s: &str) -> (b: &[u8])
    ensures
        b@ == vstd::utf8::encode_utf8(s@),
{
    s.as_bytes()
}

impl FunctionsWithAddresses {
    /// No name occurs twice.
    pub closed spec fn wf(&self) -> bool {
        forall|i: int, j: int|
            0 <= i < self.entries@.len() && 0 <= j < self.entries@.len() && i != j ==> #[trigger] self.entries@[i].0@
                != #[trigger] self.entries@[j].0@
    }

    proof fn lemma_lookup(&self, i: int)
        requires
            self.wf(),
            0 <= i < self.entries@.len(),
        ensures
            self@.contains_key(self.entries@[i].0@),
            self@[self.entries@[i].0@] == self.entries@[i].1@,
    {
        let k = self.entries@[i].0@;
        assert(exists|j: int| 0 <= j < self.entries@.len() && #[trigger] self.entries@[j].0@ == k);
    }

    pub fn new() -> (f: Self)
        ensures
            f.wf(),
            f@ == Map::<Seq<u8>, Seq<AddressWithOffset>>::empty(),
    {
        let f = FunctionsWithAddresses { entries: Vec::new() };
        assert(f@ =~= Map::<Seq<u8>, Seq<AddressWithOffset>>::empty());
        f
    }

    /// The position of the entry named `name`, if any.
    fn position(&self, name: &[u8]) -> (r: Option<usize>)
        requires
            self.wf(),
        ensures
            match r {
                Some(i) => i < self.entries@.len() && self.entries@[i as int].0@ == name@,
                None => !self@.contains_key(name@),
            },
    {
        let mut i: usize = 0;
        while i < self.entries.len()
            invariant
                i <= self.entries@.len(),
                forall|j: int| 0 <= j < i ==> #[trigger] self.entries@[j].0@ != name@,
            decreases self.entries@.len() - i,
        {
            if bytes_eq(self.entries[i].0.as_slice(), name) {
                return Some(i);
            }
            i = i + 1;
        }
        None
    }

    /// Sets the addresses of the function `symbol_name`, replacing earlier ones.
    pub fn insert(&mut self, symbol_name: &[u8], addresses: Vec<AddressWithOffset>)
        requires
            old(self).wf(),
        ensures
            final(self).wf(),
            final(self)@ == old(self)@.insert(symbol_name@, addresses@),
    {
        let ghost old_map = self@;
        match self.position(symbol_name) {
            Some(i) => {
                let name = bytes_to_vec(symbol_name);
                self.entries.set(i, (name, addresses));
                proof {
                    assert forall|k: Seq<u8>| self@.contains_key(k) <==> old_map.insert(symbol_name@, addresses@).contains_key(k) by {
                        if old_map.contains_key(k) {
                            let j = choose|j: int| 0 <= j < old(self).entries@.len() && #[trigger] old(self).entries@[j].0@ == k;
                            assert(self.entries@[j].0@ == k);
                        }
                        if self@.contains_key(k) {
                            let j = choose|j: int| 0 <= j < self.entries@.len() && #[trigger] self.entries@[j].0@ == k;
                            if j != i {
                                assert(old(self).entries@[j].0@ == k);
                            }
                        }
                    }
                    assert forall|k: Seq<u8>| #[trigger] self@.contains_key(k) implies self@[k] == old_map.insert(symbol_name@, addresses@)[k] by {
                        let j = choose|j: int| 0 <= j < self.entries@.len() && #[trigger] self.entries@[j].0@ == k;
                        self.lemma_lookup(j);
                        if j != i {
                            old(self).lemma_lookup(j);
                        }
                    }
                    assert(self@ =~= old_map.insert(symbol_name@, addresses@));
                }
            },
            None => {
                let name = bytes_to_vec(symbol_name);
                self.entries.push((name, addresses));
                proof {
                    let n = old(self).entries@.len() as int;
                    assert forall|k: Seq<u8>| self@.contains_key(k) <==> old_map.insert(symbol_name@, addresses@).contains_key(k) by {
                        if old_map.contains_key(k) {
                            let j = choose|j: int| 0 <= j < old(self).entries@.len() && #[trigger] old(self).entries@[j].0@ == k;
                            assert(self.entries@[j].0@ == k);
                        }
                        if k == symbol_name@ {
                            assert(self.entries@[n].0@ == k);
                        }
                        if self@.contains_key(k) {
                            let j = choose|j: int| 0 <= j < self.entries@.len() && #[trigger] self.entries@[j].0@ == k;
                            if j != n {
                                assert(old(self).entries@[j].0@ == k);
                            }
                        }
                    }
                    assert forall|a: int, b: int|
                        0 <= a < self.entries@.len() && 0 <= b < self.entries@.len() && a != b implies #[trigger] self.entries@[a].0@
                        != #[trigger] self.entries@[b].0@ by {
                        if a == n && b < n {
                            old(self).lemma_lookup(b);
                        } else if b == n && a < n {
                            old(self).lemma_lookup(a);
                        }
                    }
                    assert forall|k: Seq<u8>| #[trigger] self@.contains_key(k) implies self@[k] == old_map.insert(symbol_name@, addresses@)[k] by {
                        let j = choose|j: int| 0 <= j < self.entries@.len() && #[trigger] self.entries@[j].0@ == k;
                        self.lemma_lookup(j);
                        if j != n {
                            old(self).lemma_lookup(j);
                        }
                    }
                    assert(self@ =~= old_map.insert(symbol_name@, addresses@));
                }
            },
        }
    }

    /// Takes out the addresses of the function `symbol_name`, if it has any.
    pub fn get_and_remove_addresses_for_function(&mut self, symbol_name: &str) -> (r: Option<Vec<AddressWithOffset>>)
        requires
            old(self).wf(),
        ensures
            final(self).wf(),
            ({
                let key = vstd::utf8::encode_utf8(symbol_name@);
                &&& final(self)@ == old(self)@.remove(key)
                &&& match r {
                    Some(v) => old(self)@.contains_key(key) && v@ == old(self)@[key],
                    None => !old(self)@.contains_key(key),
                }
            }),
    {
        let key = str_bytes(symbol_name);
        let ghost old_map = self@;
        match self.position(key) {
            Some(i) => {
                proof {
                    self.lemma_lookup(i as int);
                }
                let (_, addresses) = self.entries.remove(i);
                proof {
                    assert forall|k: Seq<u8>| self@.contains_key(k) <==> old_map.remove(key@).contains_key(k) by {
                        if old_map.contains_key(k) && k != key@ {
                            let j = choose|j: int| 0 <= j < old(self).entries@.len() && #[trigger] old(self).entries@[j].0@ == k;
                            if j < i {
                                assert(self.entries@[j].0@ == k);
                            } else {
                                assert(self.entries@[j - 1].0@ == k);
                            }
                        }
                        if self@.contains_key(k) {
                            let j = choose|j: int| 0 <= j < self.entries@.len() && #[trigger] self.entries@[j].0@ == k;
                            if j < i {
                                assert(old(self).entries@[j].0@ == k);
                            } else {
                                assert(old(self).entries@[j + 1].0@ == k);
                            }
                        }
                    }
                    assert forall|a: int, b: int|
                        0 <= a < self.entries@.len() && 0 <= b < self.entries@.len() && a != b implies #[trigger] self.entries@[a].0@
                        != #[trigger] self.entries@[b].0@ by {
                        let oa = if a < i { a } else { a + 1 };
                        let ob = if b < i { b } else { b + 1 };
                        assert(self.entries@[a] == old(self).entries@[oa]);
                        assert(self.entries@[b] == old(self).entries@[ob]);
                    }
                    assert forall|k: Seq<u8>| #[trigger] self@.contains_key(k) implies self@[k] == old_map.remove(key@)[k] by {
                        let j = choose|j: int| 0 <= j < self.entries@.len() && #[trigger] self.entries@[j].0@ == k;
                        self.lemma_lookup(j);
                        let oj = if j < i { j } else { j + 1 };
                        assert(self.entries@[j] == old(self).entries@[oj]);
                        old(self).lemma_lookup(oj);
                    }
                    assert(self@ =~= old_map.remove(key@));
                }
                Some(addresses)
            },
            None => {
                assert(self@ =~= old_map.remove(key@));
                None
            },
        }
    }
}

// ---------------------------------------------------------------------------
// Matching addresses to the functions of an object map
// ---------------------------------------------------------------------------

/// A function that the object map of a linked binary lists: where it lies in
/// this binary, its name, and the object file that holds its debug info.
pub struct ObjectMapEntry {
    pub address: u64,
    pub size: u64,
    pub name: Vec<u8>,
    pub object_index: usize,
}

/// An address to look up: relative to the binary the caller asked about, and
/// where it lies in the object being read.
#[derive(Clone, Copy)]
pub struct AddressPair {
    pub original_relative_address: u32,
    pub vmaddr_in_this_object: u64,
}

/// Where a function ends.
pub open spec fn function_end(f: ObjectMapEntry) -> int {
    f.address + f.size
}

/// The first function from position `from` on that ends after `a` (the
/// number of functions when there is none).
pub open spec fn first_ending_after_from(funs: Seq<ObjectMapEntry>, a: u64, from: int) -> int
    decreases funs.len() - from,
{
    if from >= funs.len() {
        funs.len() as int
    } else if function_end(funs[from]) > a {
        from
    } else {
        first_ending_after_from(funs, a, from + 1)
    }
}

/// The first function that ends after `a` (the number of functions when there is none).
pub open spec fn first_ending_after(funs: Seq<ObjectMapEntry>, a: u64) -> int {
    first_ending_after_from(funs, a, 0)
}

/// The function an address falls in: the first function that ends after it,
/// when that function starts at or before it.
pub open spec fn function_of(funs: Seq<ObjectMapEntry>, a: u64) -> Option<int> {
    let j = first_ending_after(funs, a);
    if j < funs.len() && funs[j].address <= a {
        Some(j)
    } else {
        None
    }
}

/// Whether an address falls in function `k`.
pub open spec fn is_in_function(funs: Seq<ObjectMapEntry>, k: int) -> spec_fn(AddressPair) -> bool {
    |p: AddressPair| function_of(funs, p.vmaddr_in_this_object) == Some(k)
}

/// Whether an address falls in no function.
pub open spec fn is_outside_functions(funs: Seq<ObjectMapEntry>) -> spec_fn(AddressPair) -> bool {
    |p: AddressPair| function_of(funs, p.vmaddr_in_this_object) is None
}

/// An address of function `k`, with its offset from the function's start.
pub open spec fn with_offset(funs: Seq<ObjectMapEntry>, k: int) -> spec_fn(AddressPair) -> AddressWithOffset {
    |p: AddressPair|
        AddressWithOffset {
            original_relative_address: p.original_relative_address,
            offset_from_function_start: (p.vmaddr_in_this_object - funs[k].address) as u32,
        }
}

/// The addresses that fall in function `k`, in order, with their offsets.
pub open spec fn addresses_in_function(funs: Seq<ObjectMapEntry>, addrs: Seq<AddressPair>, k: int) -> Seq<
    AddressWithOffset,
> {
    addrs.filter(is_in_function(funs, k)).map_values(with_offset(funs, k))
}

/// The functions of object `o` among the first `k` functions that have
/// addresses, by name: a later function of the same name replaces an earlier one.
pub open spec fn functions_of_object(
    funs: Seq<ObjectMapEntry>,
    addrs: Seq<AddressPair>,
    o: usize,
    k: int,
) -> Map<Seq<u8>, Seq<AddressWithOffset>>
    decreases k,
{
    if k <= 0 {
        Map::empty()
    } else {
        let m = functions_of_object(funs, addrs, o, k - 1);
        let a = addresses_in_function(funs, addrs, k - 1);
        if funs[k - 1].object_index == o && a.len() > 0 {
            m.insert(funs[k - 1].name@, a)
        } else {
            m
        }
    }
}

/// Some function of object `o` among the first `k` functions has addresses.
pub open spec fn object_has_addresses(funs: Seq<ObjectMapEntry>, addrs: Seq<AddressPair>, o: usize, k: int) -> bool {
    exists|j: int|
        0 <= j < k && funs[j].object_index == o && #[trigger] addresses_in_function(funs, addrs, j).len() > 0
}

/// The addresses are sorted by their address in this object.
pub open spec fn sorted_by_vmaddr(addrs: Seq<AddressPair>) -> bool {
    forall|i: int, j: int|
        0 <= i <= j < addrs.len() ==> #[trigger] addrs[i].vmaddr_in_this_object <= #[trigger] addrs[j].vmaddr_in_this_object
}

/// The search for the first function ending after `a` from `from` on stops at
/// or after `from`, at a function that ends after `a`, with every function it
/// passed ending at or before `a`.
proof fn lemma_first_ending_after_from(funs: Seq<ObjectMapEntry>, a: u64, from: int)
    requires
        0 <= from <= funs.len(),
    ensures
        ({
            let r = first_ending_after_from(funs, a, from);
            &&& from <= r <= funs.len()
            &&& r < funs.len() ==> function_end(funs[r]) > a
            &&& forall|k: int| from <= k < r ==> function_end(#[trigger] funs[k]) <= a
        }),
    decreases funs.len() - from,
{
    if from < funs.len() && function_end(funs[from]) <= a {
        lemma_first_ending_after_from(funs, a, from + 1);
    }
}

/// Starting the search later gives the same answer when every skipped
/// function ends at or before `a`.
proof fn lemma_first_ending_after_skip(funs: Seq<ObjectMapEntry>, a: u64, from: int, to: int)
    requires
        0 <= from <= to <= funs.len(),
        forall|k: int| from <= k < to ==> function_end(#[trigger] funs[k]) <= a,
    ensures
        first_ending_after_from(funs, a, from) == first_ending_after_from(funs, a, to),
    decreases to - from,
{
    if from < to {
        lemma_first_ending_after_skip(funs, a, from + 1, to);
    }
}

/// Which functions have addresses only depends on the addresses of each function.
proof fn lemma_functions_of_object_agree(
    funs: Seq<ObjectMapEntry>,
    a1: Seq<AddressPair>,
    a2: Seq<AddressPair>,
    o: usize,
    k: int,
)
    requires
        forall|j: int| 0 <= j < k ==> #[trigger] addresses_in_function(funs, a1, j) == addresses_in_function(funs, a2, j),
    ensures
        functions_of_object(funs, a1, o, k) == functions_of_object(funs, a2, o, k),
        object_has_addresses(funs, a1, o, k) == object_has_addresses(funs, a2, o, k),
    decreases k,
{
    if k > 0 {
        lemma_functions_of_object_agree(funs, a1, a2, o, k - 1);
        assert(addresses_in_function(funs, a1, k - 1) == addresses_in_function(funs, a2, k - 1));
    }
    if object_has_addresses(funs, a1, o, k) {
        let j = choose|j: int|
            0 <= j < k && funs[j].object_index == o && #[trigger] addresses_in_function(funs, a1, j).len() > 0;
        assert(addresses_in_function(funs, a1, j) == addresses_in_function(funs, a2, j));
    }
    if object_has_addresses(funs, a2, o, k) {
        let j = choose|j: int|
            0 <= j < k && funs[j].object_index == o && #[trigger] addresses_in_function(funs, a2, j).len() > 0;
        assert(addresses_in_function(funs, a1, j) == addresses_in_function(funs, a2, j));
    }
}

/// Functions without addresses add nothing.
proof fn lemma_functions_of_object_tail(funs: Seq<ObjectMapEntry>, addrs: Seq<AddressPair>, o: usize, m: int, k: int)
    requires
        0 <= m <= k,
        forall|j: int| m <= j < k ==> #[trigger] addresses_in_function(funs, addrs, j).len() == 0,
    ensures
        functions_of_object(funs, addrs, o, k) == functions_of_object(funs, addrs, o, m),
        object_has_addresses(funs, addrs, o, k) == object_has_addresses(funs, addrs, o, m),
    decreases k - m,
{
    if m < k {
        lemma_functions_of_object_tail(funs, addrs, o, m, k - 1);
        assert(addresses_in_function(funs, addrs, k - 1).len() == 0);
    }
}

/// A filter whose predicate holds for no element is empty.
proof fn lemma_filter_none<A>(s: Seq<A>, p: spec_fn(A) -> bool)
    requires
        forall|i: int| 0 <= i < s.len() ==> !p(#[trigger] s[i]),
    ensures
        s.filter(p).len() == 0,
{
    if s.filter(p).len() > 0 {
        s.lemma_filter_pred(p, 0);
        assert(s.filter(p).contains(s.filter(p)[0]));
        s.lemma_filter_contains_rev(p, s.filter(p)[0]);
    }
}

/// Filtering a sequence with one more element.
/// The functions with addresses, grouped by object, are those of the first `k`
/// functions among `addrs`: each object has an entry exactly when one of its
/// functions has addresses, holding its functions by name.
pub open spec fn groups_functions(
    map: Map<usize, FunctionsWithAddresses>,
    funs: Seq<ObjectMapEntry>,
    addrs: Seq<AddressPair>,
    k: int,
) -> bool {
    forall|o: usize|
        (#[trigger] map.contains_key(o) <==> object_has_addresses(funs, addrs, o, k)) && (map.contains_key(o)
            ==> map[o].wf() && map[o]@ == functions_of_object(funs, addrs, o, k))
}

/// An object none of whose functions has addresses has no functions.
proof fn lemma_no_functions_without_addresses(funs: Seq<ObjectMapEntry>, addrs: Seq<AddressPair>, o: usize, k: int)
    requires
        !object_has_addresses(funs, addrs, o, k),
    ensures
        functions_of_object(funs, addrs, o, k) == Map::<Seq<u8>, Seq<AddressWithOffset>>::empty(),
    decreases k,
{
    if k > 0 {
        if object_has_addresses(funs, addrs, o, k - 1) {
            let j = choose|j: int|
                0 <= j < k - 1 && funs[j].object_index == o && #[trigger] addresses_in_function(funs, addrs, j).len() > 0;
            assert(object_has_addresses(funs, addrs, o, k));
        }
        lemma_no_functions_without_addresses(funs, addrs, o, k - 1);
        if funs[k - 1].object_index == o && addresses_in_function(funs, addrs, k - 1).len() > 0 {
            assert(object_has_addresses(funs, addrs, o, k));
        }
    }
}

/// Records the addresses of function `j` under its object, when it has any.
fn flush_function(
    map: &mut HashMap<usize, FunctionsWithAddresses>,
    funs: &[ObjectMapEntry],
    j: usize,
    addresses: Vec<AddressWithOffset>,
    Ghost(addrs): Ghost<Seq<AddressPair>>,
)
    requires
        j < funs@.len(),
        groups_functions(old(map)@, funs@, addrs, j as int),
        addresses@ == addresses_in_function(funs@, addrs, j as int),
    ensures
        groups_functions(final(map)@, funs@, addrs, j + 1),
{
    broadcast use vstd::std_specs::hash::group_hash_axioms;

    let ghost before = map@;
    if addresses.len() > 0 {
        let fun = &funs[j];
        let ghost o_j = fun.object_index;
        let mut functions = match map.remove(&fun.object_index) {
            Some(f) => {
                assert(before.contains_key(o_j) && f == before[o_j]);
                f
            },
            None => {
                assert(!before.contains_key(o_j));
                proof {
                    lemma_no_functions_without_addresses(funs@, addrs, o_j, j as int);
                }
                FunctionsWithAddresses::new()
            },
        };
        assert(functions.wf() && functions@ == functions_of_object(funs@, addrs, o_j, j as int));
        functions.insert(fun.name.as_slice(), addresses);
        map.insert(fun.object_index, functions);
        proof {
            assert forall|o: usize|
                (#[trigger] map@.contains_key(o) <==> object_has_addresses(funs@, addrs, o, j + 1)) && (map@.contains_key(o)
                    ==> map@[o].wf() && map@[o]@ == functions_of_object(funs@, addrs, o, j + 1)) by {
                if o == fun.object_index {
                    assert(addresses_in_function(funs@, addrs, j as int).len() > 0);
                    assert(object_has_addresses(funs@, addrs, o, j + 1));
                } else {
                    assert(before.contains_key(o) == map@.contains_key(o));
                    if object_has_addresses(funs@, addrs, o, j + 1) {
                        let i = choose|i: int|
                            0 <= i < j + 1 && funs@[i].object_index == o && #[trigger] addresses_in_function(funs@, addrs, i).len()
                                > 0;
                        assert(object_has_addresses(funs@, addrs, o, j as int));
                    }
                    if object_has_addresses(funs@, addrs, o, j as int) {
                        let i = choose|i: int|
                            0 <= i < j && funs@[i].object_index == o && #[trigger] addresses_in_function(funs@, addrs, i).len()
                                > 0;
                        assert(object_has_addresses(funs@, addrs, o, j + 1));
                    }
                }
            }
        }
    } else {
        proof {
            assert forall|o: usize|
                (#[trigger] map@.contains_key(o) <==> object_has_addresses(funs@, addrs, o, j + 1)) && (map@.contains_key(o)
                    ==> map@[o].wf() && map@[o]@ == functions_of_object(funs@, addrs, o, j + 1)) by {
                if object_has_addresses(funs@, addrs, o, j + 1) {
                    let i = choose|i: int|
                        0 <= i < j + 1 && funs@[i].object_index == o && #[trigger] addresses_in_function(funs@, addrs, i).len()
                            > 0;
                    assert(object_has_addresses(funs@, addrs, o, j as int));
                }
                if object_has_addresses(funs@, addrs, o, j as int) {
                    let i = choose|i: int|
                        0 <= i < j && funs@[i].object_index == o && #[trigger] addresses_in_function(funs@, addrs, i).len()
                            > 0;
                    assert(object_has_addresses(funs@, addrs, o, j + 1));
                }
                assert(functions_of_object(funs@, addrs, o, j + 1) == functions_of_object(funs@, addrs, o, j as int));
            }
        }
    }
}

/// Splits the addresses, sorted by their address in this object, into those
/// that fall in a function of the object map and those that do not. The first
/// come grouped by the object that holds their function's debug info, then by
/// the function's name, with their offsets from the function's start; the
/// others come in order. An address falls in the first function that ends after
/// it, when that function starts at or before it.
pub fn match_funs_to_addresses(
    function_symbols: &[ObjectMapEntry],
    addresses: &[AddressPair],
) -> (r: (HashMap<usize, FunctionsWithAddresses>, Vec<AddressPair>))
    requires
        sorted_by_vmaddr(addresses@),
        forall|k: int| 0 <= k < function_symbols@.len() ==> function_end(#[trigger] function_symbols@[k]) <= u64::MAX,
    ensures
        r.1@ == addresses@.filter(is_outside_functions(function_symbols@)),
        groups_functions(r.0@, function_symbols@, addresses@, function_symbols@.len() as int),
{
    broadcast use vstd::std_specs::hash::group_hash_axioms;

    let ghost funs = function_symbols@;
    let ghost addrs = addresses@;
    let n = function_symbols.len();
    let mut map: HashMap<usize, FunctionsWithAddresses> = HashMap::new();
    let mut internal_addresses: Vec<AddressPair> = Vec::new();
    let mut cur_fun_addresses: Vec<AddressWithOffset> = Vec::new();
    let mut j: usize = 0;
    let mut i: usize = 0;
    proof {
        assert(addrs.take(0) == Seq::<AddressPair>::empty());
        assert(addrs.take(0).filter(is_outside_functions(funs)) == Seq::<AddressPair>::empty()) by {
            reveal_with_fuel(Seq::filter, 1);
        }
        assert(addresses_in_function(funs, addrs.take(0), 0) == Seq::<AddressWithOffset>::empty()) by {
            reveal_with_fuel(Seq::filter, 1);
        }
        assert(internal_addresses@ == Seq::<AddressPair>::empty());
        assert(cur_fun_addresses@ == Seq::<AddressWithOffset>::empty());
    }
    while i < addresses.len()
        invariant
            funs == function_symbols@,
            addrs == addresses@,
            n == funs.len(),
            sorted_by_vmaddr(addrs),
            forall|k: int| 0 <= k < funs.len() ==> function_end(#[trigger] funs[k]) <= u64::MAX,
            i <= addrs.len(),
            j <= n,
            i == 0 ==> j == 0,
            i > 0 ==> j == first_ending_after(funs, addrs[i - 1].vmaddr_in_this_object),
            forall|t: int| 0 <= t < i ==> first_ending_after(funs, #[trigger] addrs[t].vmaddr_in_this_object) <= j,
            internal_addresses@ == addrs.take(i as int).filter(is_outside_functions(funs)),
            cur_fun_addresses@ == addresses_in_function(funs, addrs.take(i as int), j as int),
            groups_functions(map@, funs, addrs.take(i as int), j as int),
        decreases addrs.len() - i,
    {
        let address_pair = addresses[i];
        let a = address_pair.vmaddr_in_this_object;
        let ghost prefix = addrs.take(i as int);
        proof {
            if i > 0 {
                let prev = addrs[i - 1].vmaddr_in_this_object;
                lemma_first_ending_after_from(funs, prev, 0);
                assert(prev <= a);
                assert forall|k: int| 0 <= k < j implies function_end(#[trigger] funs[k]) <= a by {}
                lemma_first_ending_after_skip(funs, a, 0, j as int);
            }
        }
        while j < n && a >= function_symbols[j].address + function_symbols[j].size
            invariant
                funs == function_symbols@,
                addrs == addresses@,
                n == funs.len(),
                forall|k: int| 0 <= k < funs.len() ==> function_end(#[trigger] funs[k]) <= u64::MAX,
                i < addrs.len(),
                j <= n,
                prefix == addrs.take(i as int),
                a == addrs[i as int].vmaddr_in_this_object,
                first_ending_after(funs, a) == first_ending_after_from(funs, a, j as int),
                forall|t: int| 0 <= t < i ==> first_ending_after(funs, #[trigger] addrs[t].vmaddr_in_this_object) <= j,
                cur_fun_addresses@ == addresses_in_function(funs, prefix, j as int),
                groups_functions(map@, funs, prefix, j as int),
            decreases n - j,
        {
            flush_function(&mut map, function_symbols, j, cur_fun_addresses, Ghost(prefix));
            cur_fun_addresses = Vec::new();
            j = j + 1;
            proof {
                assert forall|t: int| 0 <= t < prefix.len() implies !is_in_function(funs, j as int)(#[trigger] prefix[t]) by {
                    assert(prefix[t] == addrs[t]);
                    assert(first_ending_after(funs, addrs[t].vmaddr_in_this_object) <= j - 1);
                }
                lemma_filter_none(prefix, is_in_function(funs, j as int));
                assert(addresses_in_function(funs, prefix, j as int) == Seq::<AddressWithOffset>::empty());
            }
        }
        proof {
            lemma_first_ending_after_from(funs, a, j as int);
            assert(first_ending_after(funs, a) == j);
            assert(addrs.take(i + 1) == prefix.push(address_pair));
            assert forall|t: int| 0 <= t < i + 1 implies first_ending_after(funs, #[trigger] addrs[t].vmaddr_in_this_object) <= j by {
                if t < i {
                } else {
                    assert(addrs[t] == address_pair);
                }
            }
        }
        let ghost next = addrs.take(i + 1);
        if j < n && function_symbols[j].address <= a {
            cur_fun_addresses.push(
                AddressWithOffset {
                    original_relative_address: address_pair.original_relative_address,
                    offset_from_function_start: (a - function_symbols[j].address) as u32,
                },
            );
            proof {
                assert(function_of(funs, a) == Some(j as int));
                lemma_filter_push(prefix, address_pair, is_in_function(funs, j as int));
                lemma_filter_push(prefix, address_pair, is_outside_functions(funs));
                assert(addresses_in_function(funs, next, j as int) == addresses_in_function(funs, prefix, j as int).push(
                    with_offset(funs, j as int)(address_pair),
                ));
                assert forall|k: int| 0 <= k < j implies #[trigger] addresses_in_function(funs, prefix, k)
                    == addresses_in_function(funs, next, k) by {
                    lemma_filter_push(prefix, address_pair, is_in_function(funs, k));
                }
                assert forall|o: usize|
                    (#[trigger] map@.contains_key(o) <==> object_has_addresses(funs, next, o, j as int)) && (map@.contains_key(o)
                        ==> map@[o].wf() && map@[o]@ == functions_of_object(funs, next, o, j as int)) by {
                    lemma_functions_of_object_agree(funs, prefix, next, o, j as int);
                }
            }
        } else {
            internal_addresses.push(address_pair);
            proof {
                assert(function_of(funs, a) is None);
                lemma_filter_push(prefix, address_pair, is_outside_functions(funs));
                lemma_filter_push(prefix, address_pair, is_in_function(funs, j as int));
                assert forall|k: int| 0 <= k < j implies #[trigger] addresses_in_function(funs, prefix, k)
                    == addresses_in_function(funs, next, k) by {
                    lemma_filter_push(prefix, address_pair, is_in_function(funs, k));
                }
                assert forall|o: usize|
                    (#[trigger] map@.contains_key(o) <==> object_has_addresses(funs, next, o, j as int)) && (map@.contains_key(o)
                        ==> map@[o].wf() && map@[o]@ == functions_of_object(funs, next, o, j as int)) by {
                    lemma_functions_of_object_agree(funs, prefix, next, o, j as int);
                }
            }
        }
        i = i + 1;
    }
    proof {
        assert(addrs.take(i as int) == addrs);
    }
    let ghost last = j;
    if j < n {
        flush_function(&mut map, function_symbols, j, cur_fun_addresses, Ghost(addrs));
        j = j + 1;
    }
    proof {
        assert forall|k: int| j <= k < n implies #[trigger] addresses_in_function(funs, addrs, k).len() == 0 by {
            assert forall|t: int| 0 <= t < addrs.len() implies !is_in_function(funs, k)(#[trigger] addrs[t]) by {
                assert(first_ending_after(funs, addrs[t].vmaddr_in_this_object) <= last);
            }
            lemma_filter_none(addrs, is_in_function(funs, k));
        }
        assert forall|o: usize|
            (#[trigger] map@.contains_key(o) <==> object_has_addresses(funs, addrs, o, n as int)) && (map@.contains_key(o)
                ==> map@[o].wf() && map@[o]@ == functions_of_object(funs, addrs, o, n as int)) by {
            lemma_functions_of_object_tail(funs, addrs, o, j as int, n as int);
        }
    }
    (map, internal_addresses)
}

// ---------------------------------------------------------------------------
// Finding the addresses in an object file of the functions that hold them
// ---------------------------------------------------------------------------

/// An address under a function, placed in an object where the function's
/// symbol lies at `address`.
pub open spec fn address_pair_at(address: u64) -> spec_fn(AddressWithOffset) -> AddressPair {
    |a: AddressWithOffset|
        AddressPair {
            original_relative_address: a.original_relative_address,
            vmaddr_in_this_object: (address + a.offset_from_function_start) as u64,
        }
}

/// The addresses found through the symbols of an object, in the order of the
/// symbols: the first symbol named like a function takes that function's
/// addresses, each placed at the symbol's address plus its offset.
pub open spec fn translated(symbols: Seq<ObjectSymbol>, functions: Map<Seq<u8>, Seq<AddressWithOffset>>) -> Seq<
    AddressPair,
>
    decreases symbols.len(),
{
    if symbols.len() == 0 {
        Seq::empty()
    } else {
        let s = symbols[0];
        let rest = symbols.skip(1);
        match s.name {
            Some(name) => {
                let key = vstd::utf8::encode_utf8(name@);
                if functions.contains_key(key) {
                    functions[key].map_values(address_pair_at(s.address)) + translated(rest, functions.remove(key))
                } else {
                    translated(rest, functions)
                }
            },
            None => translated(rest, functions),
        }
    }
}

/// Every address that `translated` places fits in 64 bits.
pub open spec fn translation_fits(symbols: Seq<ObjectSymbol>, functions: Map<Seq<u8>, Seq<AddressWithOffset>>) -> bool
    decreases symbols.len(),
{
    if symbols.len() == 0 {
        true
    } else {
        let s = symbols[0];
        let rest = symbols.skip(1);
        match s.name {
            Some(name) => {
                let key = vstd::utf8::encode_utf8(name@);
                if functions.contains_key(key) {
                    &&& forall|k: int|
                        0 <= k < functions[key].len() ==> s.address + (#[trigger] functions[key][k]).offset_from_function_start
                            <= u64::MAX
                    &&& translation_fits(rest, functions.remove(key))
                } else {
                    translation_fits(rest, functions)
                }
            },
            None => translation_fits(rest, functions),
        }
    }
}

/// Whether an address lies at `vmaddr` in the object.
pub open spec fn is_at_vmaddr(vmaddr: u64) -> spec_fn(AddressPair) -> bool {
    |p: AddressPair| p.vmaddr_in_this_object == vmaddr
}

/// `slice::sort_by_key` on the address in the object: the standard library
/// documents this sort as stable, so addresses at the same place keep their
/// relative order.
#[verifier::external_body]
fn sort_by_vmaddr(v: &mut Vec<AddressPair>)
    ensures
        final(v)@.len() == old(v)@.len(),
        sorted_by_vmaddr(final(v)@),
        forall|a: u64| #[trigger] final(v)@.filter(is_at_vmaddr(a)) == old(v)@.filter(is_at_vmaddr(a)),
{
    v.sort_by_key(|ap| ap.vmaddr_in_this_object)
}

/// The addresses of `functions` in an object with these symbols, sorted by
/// their place in the object (see `translated`; addresses at the same place
/// keep their order there).
pub fn translate_addresses_to_object(symbols: &[ObjectSymbol], functions: FunctionsWithAddresses) -> (r: Vec<
    AddressPair,
>)
    requires
        functions.wf(),
        translation_fits(symbols@, functions@),
    ensures
        r@.len() == translated(symbols@, functions@).len(),
        sorted_by_vmaddr(r@),
        forall|a: u64| #[trigger] r@.filter(is_at_vmaddr(a)) == translated(symbols@, functions@).filter(is_at_vmaddr(a)),
{
    let ghost all = translated(symbols@, functions@);
    let mut functions = functions;
    let mut out: Vec<AddressPair> = Vec::new();
    let mut i: usize = 0;
    proof {
        assert(symbols@.skip(0) == symbols@);
    }
    while i < symbols.len()
        invariant
            i <= symbols@.len(),
            functions.wf(),
            out@ + translated(symbols@.skip(i as int), functions@) == all,
            translation_fits(symbols@.skip(i as int), functions@),
        decreases symbols@.len() - i,
    {
        let symbol = &symbols[i];
        proof {
            assert(symbols@.skip(i as int).skip(1) == symbols@.skip(i + 1));
            assert(symbols@.skip(i as int)[0] == *symbol);
        }
        if let Some(name) = &symbol.name {
            let ghost rest = symbols@.skip(i + 1);
            let ghost key = vstd::utf8::encode_utf8(name@);
            let ghost fns = functions@;
            if let Some(addresses) = functions.get_and_remove_addresses_for_function(name.as_str()) {
                let ghost before = out@;
                let mut k: usize = 0;
                while k < addresses.len()
                    invariant
                        k <= addresses@.len(),
                        fns.contains_key(key),
                        addresses@ == fns[key],
                        functions.wf(),
                        functions@ == fns.remove(key),
                        before + translated(symbols@.skip(i as int), fns) == all,
                        translation_fits(symbols@.skip(i as int), fns),
                        rest == symbols@.skip(i + 1),
                        symbols@.skip(i as int)[0] == *symbol,
                        symbols@.skip(i as int).len() > 0,
                        symbol.name == Some(*name),
                        key == vstd::utf8::encode_utf8(name@),
                        forall|x: int|
                            0 <= x < addresses@.len() ==> symbol.address + (#[trigger] addresses@[x]).offset_from_function_start
                                <= u64::MAX,
                        out@ == before + addresses@.take(k as int).map_values(address_pair_at(symbol.address)),
                    decreases addresses@.len() - k,
                {
                    let a = addresses[k];
                    let pair = AddressPair {
                        original_relative_address: a.original_relative_address,
                        vmaddr_in_this_object: symbol.address + a.offset_from_function_start as u64,
                    };
                    let ghost prev = out@;
                    out.push(pair);
                    proof {
                        assert(addresses@.take(k + 1) == addresses@.take(k as int).push(a));
                        lemma_map_values_push(addresses@.take(k as int), a, address_pair_at(symbol.address));
                        assert(out@ == prev.push(pair));
                    }
                    k = k + 1;
                }
                proof {
                    assert(addresses@.take(k as int) == addresses@);
                    assert(translation_fits(rest, fns.remove(key)));
                    let added = fns[key].map_values(address_pair_at(symbol.address));
                    assert(translated(symbols@.skip(i as int), fns) == added + translated(rest, fns.remove(key)));
                    assert(before + (added + translated(rest, fns.remove(key))) == (before + added) + translated(
                        rest,
                        fns.remove(key),
                    ));
                }
            } else {
                assert(translated(symbols@.skip(i as int), fns) == translated(rest, fns));
                assert(translation_fits(rest, fns));
                assert(functions@ == fns);
            }
        } else {
            assert(translated(symbols@.skip(i as int), functions@) == translated(symbols@.skip(i + 1), functions@));
            assert(translation_fits(symbols@.skip(i + 1), functions@));
        }
        i = i + 1;
    }
    proof {
        assert(symbols@.skip(i as int) == Seq::<ObjectSymbol>::empty());
        assert(out@ == all);
    }
    sort_by_vmaddr(&mut out);
    out
}

// ---------------------------------------------------------------------------
// Choosing the architecture of a fat binary
// ---------------------------------------------------------------------------

/// What reading the header of one architecture of a fat binary gave.
pub enum ArchReading {
    /// The header did not parse; the message of the parse error.
    Unparsable(String),
    /// The header parsed but has no UUID.
    NoUuid,
    /// The header's debug ID, in breakpad form.
    WithDebugId(String),
}

/// Whether the search for `debug_id` stops at this architecture: its header
/// did not parse, or its debug ID is the one sought.
pub open spec fn arch_stops(reading: ArchReading, debug_id: Seq<char>) -> bool {
    ||| reading is Unparsable
    ||| (reading matches ArchReading::WithDebugId(d) && d@ == debug_id)
}

/// The search stops at architecture `i` and not before.
pub open spec fn first_stop(arches: Seq<((u64, u64), ArchReading)>, debug_id: Seq<char>, i: int) -> bool {
    &&& 0 <= i < arches.len()
    &&& arch_stops(arches[i].1, debug_id)
    &&& forall|j: int| 0 <= j < i ==> !arch_stops(#[trigger] arches[j].1, debug_id)
}

/// The debug IDs of the architectures that have one, in order.
pub open spec fn found_debug_ids(arches: Seq<((u64, u64), ArchReading)>) -> Seq<Seq<char>>
    decreases arches.len(),
{
    if arches.len() == 0 {
        Seq::empty()
    } else {
        let earlier = found_debug_ids(arches.drop_last());
        match arches.last().1 {
            ArchReading::WithDebugId(d) => earlier.push(d@),
            _ => earlier,
        }
    }
}

/// The message of the error for an architecture without UUID.
pub open spec fn missing_uuid_message() -> Seq<char> {
    GetSymbolsError::InvalidInputError("Missing mach-O UUID").spec_message()
}

/// One error message for each architecture without UUID, in order.
pub open spec fn missing_uuid_errors(arches: Seq<((u64, u64), ArchReading)>) -> Seq<Seq<char>>
    decreases arches.len(),
{
    if arches.len() == 0 {
        Seq::empty()
    } else {
        let earlier = missing_uuid_errors(arches.drop_last());
        match arches.last().1 {
            ArchReading::NoUuid => earlier.push(missing_uuid_message()),
            _ => earlier,
        }
    }
}

/// The (offset, size) of the architecture of a fat binary whose debug ID is
/// `debug_id`, given what reading each architecture's header gave, in order:
/// the search stops at the first header that does not parse, with its error,
/// or at the first match; with neither, the error lists the debug IDs found
/// and an error for each architecture without UUID.
pub fn get_arch_range(arches: &[((u64, u64), ArchReading)], debug_id: &str) -> (r: Result<(u64, u64), GetSymbolsError>)
    ensures
        match r {
            Ok(range) => exists|i: int| #[trigger] first_stop(arches@, debug_id@, i) && arches@[i].0 == range && arches@[i].1 is WithDebugId,
            Err(GetSymbolsError::MachOHeaderParseError(m)) => exists|i: int|
                #[trigger] first_stop(arches@, debug_id@, i) && (arches@[i].1 matches ArchReading::Unparsable(e) && e@ == m@),
            Err(GetSymbolsError::NoMatchMultiArch(ids, errs)) => {
                &&& forall|i: int| 0 <= i < arches@.len() ==> !arch_stops(#[trigger] arches@[i].1, debug_id@)
                &&& texts(ids@) == found_debug_ids(arches@)
                &&& texts(errs@) == missing_uuid_errors(arches@)
            },
            Err(_) => false,
        },
{
    let mut debug_ids: Vec<String> = Vec::new();
    let mut errors: Vec<String> = Vec::new();
    let mut i: usize = 0;
    while i < arches.len()
        invariant
            i <= arches@.len(),
            forall|j: int| 0 <= j < i ==> !arch_stops(#[trigger] arches@[j].1, debug_id@),
            texts(debug_ids@) == found_debug_ids(arches@.take(i as int)),
            texts(errors@) == missing_uuid_errors(arches@.take(i as int)),
        decreases arches@.len() - i,
    {
        let (range, reading) = &arches[i];
        let ghost before_ids = debug_ids@;
        let ghost before_errors = errors@;
        proof {
            assert(arches@.take(i + 1).drop_last() == arches@.take(i as int));
            assert(arches@.take(i + 1).last() == arches@[i as int]);
        }
        match reading {
            ArchReading::Unparsable(e) => {
                assert(first_stop(arches@, debug_id@, i as int));
                return Err(GetSymbolsError::MachOHeaderParseError(e.clone()));
            },
            ArchReading::NoUuid => {
                let message = GetSymbolsError::InvalidInputError("Missing mach-O UUID").to_string();
                errors.push(message);
                proof {
                    lemma_map_values_push(before_errors, message, |t: String| t@);
                }
            },
            ArchReading::WithDebugId(d) => {
                if str_eq(d.as_str(), debug_id) {
                    assert(first_stop(arches@, debug_id@, i as int));
                    return Ok(*range);
                }
                let id = d.clone();
                debug_ids.push(id);
                proof {
                    lemma_map_values_push(before_ids, id, |t: String| t@);
                }
            },
        }
        i = i + 1;
    }
    proof {
        assert(arches@.take(i as int) == arches@);
    }
    Err(GetSymbolsError::NoMatchMultiArch(debug_ids, errors))
}

} // verus!
