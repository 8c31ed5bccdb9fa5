//! Debug IDs made from build identifiers or from the first page of a text
//! section, the way the breakpad tools make them.
use debugid::DebugId;
use uuid::Uuid;
use crate::windows::uuid_of_bytes;
use vstd::prelude::*;

verus! {

#[verifier::external_type_specification]
#[verifier::external_body]
pub struct ExDebugId(DebugId);

/// The number of bytes of a UUID.
pub const UUID_SIZE: usize = 16;

/// The number of bytes of the text section that go into its hash.
pub const PAGE_SIZE: usize = 4096;

/// The first sixteen bytes of `identifier`, padded with zeros when it is shorter.
pub open spec fn padded_identifier(identifier: Seq<u8>) -> Seq<u8> {
    Seq::new(16, |i: int| if i < identifier.len() { identifier[i] } else { 0u8 })
}

/// The number whose bytes, most significant first, are `b`.
pub open spec fn big_endian_value(b: Seq<u8>) -> nat
    decreases b.len(),
{
    if b.len() == 0 {
        0
    } else {
        big_endian_value(b.drop_last()) * 256 + b.last() as nat
    }
}

/// The number whose bytes, least significant first, are `b`.
pub open spec fn little_endian_value(b: Seq<u8>) -> nat {
    big_endian_value(b.reverse())
}

/// The value of the bytes of `d` from `start` to `end`, read in the given byte order.
pub open spec fn field_value(d: Seq<u8>, start: int, end: int, little_endian: bool) -> nat {
    if little_endian {
        little_endian_value(d.subrange(start, end))
    } else {
        big_endian_value(d.subrange(start, end))
    }
}

/// The UUID fields that an identifier stands for: its first sixteen bytes, padded
/// with zeros, read as a `u32`, two `u16` and eight bytes, the three numbers in
/// the byte order of the object file.
pub open spec fn identifier_fields(identifier: Seq<u8>, little_endian: bool) -> (nat, nat, nat, Seq<u8>) {
    let d = padded_identifier(identifier);
    (field_value(d, 0, 4, little_endian), field_value(d, 4, 6, little_endian), field_value(
        d,
        6,
        8,
        little_endian,
    ), d.subrange(8, 16))
}

/// The XOR of the first `n` bytes of `page` into sixteen bytes, byte `i` of the
/// page going into byte `i % 16`.
pub open spec fn folded_page(page: Seq<u8>, n: nat) -> Seq<u8>
    decreases n,
{
    if n == 0 {
        Seq::new(16, |i: int| 0u8)
    } else {
        let h = folded_page(page, (n - 1) as nat);
        let k = (n - 1) % 16;
        h.update(k, h[k] ^ page[n - 1])
    }
}

/// Only the first `n` bytes of the page go into the fold: two pages that
/// agree on them fold to the same bytes.
pub proof fn law_fold_reads_only_the_first_bytes(page: Seq<u8>, other: Seq<u8>, n: nat)
    requires
        n <= page.len(),
        n <= other.len(),
        page.take(n as int) == other.take(n as int),
    ensures
        folded_page(page, n) == folded_page(other, n),
    decreases n,
{
    if n > 0 {
        assert(page.take(n - 1) == other.take(n - 1)) by {
            assert(page.take(n - 1) == page.take(n as int).take(n - 1));
            assert(other.take(n - 1) == other.take(n as int).take(n - 1));
        }
        law_fold_reads_only_the_first_bytes(page, other, (n - 1) as nat);
        assert(page[n - 1] == page.take(n as int)[n - 1]);
        assert(other[n - 1] == other.take(n as int)[n - 1]);
    }
}

/// The UUID fields of a build identifier, in the order `Uuid::from_fields` takes them.
pub fn uuid_fields_from_identifier(identifier: &[u8], little_endian: bool) -> (r: (u32, u16, u16, [u8; 8]))
    ensures
        ({
            let (d1, d2, d3, d4) = identifier_fields(identifier@, little_endian);
            r.0 == d1 && r.1 == d2 && r.2 == d3 && r.3@ == d4
        }),
{
    let mut d = [0u8; 16];
    let mut i: usize = 0;
    while i < 16
        invariant
            i <= 16,
            d@.len() == 16,
            forall|k: int| 0 <= k < i ==> d@[k] == padded_identifier(identifier@)[k],
            forall|k: int| i <= k < 16 ==> d@[k] == 0u8,
        decreases 16 - i,
    {
        if i < identifier.len() {
            d[i] = identifier[i];
        }
        i = i + 1;
    }
    assert(d@ == padded_identifier(identifier@));
    let ghost dv = d@;
    let (d1, d2, d3): (u32, u16, u16) = if little_endian {
        (
            d[0] as u32 + d[1] as u32 * 256 + d[2] as u32 * 65536 + d[3] as u32 * 16777216,
            d[4] as u16 + d[5] as u16 * 256,
            d[6] as u16 + d[7] as u16 * 256,
        )
    } else {
        (
            d[3] as u32 + d[2] as u32 * 256 + d[1] as u32 * 65536 + d[0] as u32 * 16777216,
            d[5] as u16 + d[4] as u16 * 256,
            d[7] as u16 + d[6] as u16 * 256,
        )
    };
    proof {
        reveal_with_fuel(big_endian_value, 5);
        assert(dv.subrange(0, 4).reverse() =~= seq![dv[3], dv[2], dv[1], dv[0]]);
        assert(dv.subrange(4, 6).reverse() =~= seq![dv[5], dv[4]]);
        assert(dv.subrange(6, 8).reverse() =~= seq![dv[7], dv[6]]);
        assert(dv.subrange(0, 4) =~= seq![dv[0], dv[1], dv[2], dv[3]]);
        assert(dv.subrange(4, 6) =~= seq![dv[4], dv[5]]);
        assert(dv.subrange(6, 8) =~= seq![dv[6], dv[7]]);
        assert(seq![dv[3], dv[2], dv[1], dv[0]].drop_last() =~= seq![dv[3], dv[2], dv[1]]);
        assert(seq![dv[3], dv[2], dv[1]].drop_last() =~= seq![dv[3], dv[2]]);
        assert(seq![dv[3], dv[2]].drop_last() =~= seq![dv[3]]);
        assert(seq![dv[3]].drop_last() =~= Seq::<u8>::empty());
        assert(seq![dv[0], dv[1], dv[2], dv[3]].drop_last() =~= seq![dv[0], dv[1], dv[2]]);
        assert(seq![dv[0], dv[1], dv[2]].drop_last() =~= seq![dv[0], dv[1]]);
        assert(seq![dv[0], dv[1]].drop_last() =~= seq![dv[0]]);
        assert(seq![dv[0]].drop_last() =~= Seq::<u8>::empty());
        assert(seq![dv[5], dv[4]].drop_last() =~= seq![dv[5]]);
        assert(seq![dv[5]].drop_last() =~= Seq::<u8>::empty());
        assert(seq![dv[4], dv[5]].drop_last() =~= seq![dv[4]]);
        assert(seq![dv[4]].drop_last() =~= Seq::<u8>::empty());
        assert(seq![dv[7], dv[6]].drop_last() =~= seq![dv[7]]);
        assert(seq![dv[7]].drop_last() =~= Seq::<u8>::empty());
        assert(seq![dv[6], dv[7]].drop_last() =~= seq![dv[6]]);
        assert(seq![dv[6]].drop_last() =~= Seq::<u8>::empty());
    }
    let d4: [u8; 8] = [d[8], d[9], d[10], d[11], d[12], d[13], d[14], d[15]];
    assert(d4@ =~= dv.subrange(8, 16));
    (d1, d2, d3, d4)
}

/// The XOR fold of the first page (at most 4096 bytes) of a text section into
/// sixteen bytes.
pub fn fold_text_first_page(text_first_page: &[u8]) -> (hash: [u8; 16])
    ensures
        hash@ == folded_page(text_first_page@, if text_first_page@.len() < 4096 {
            text_first_page@.len()
        } else {
            4096
        }),
{
    let mut hash = [0u8; UUID_SIZE];
    let n = if text_first_page.len() < PAGE_SIZE {
        text_first_page.len()
    } else {
        PAGE_SIZE
    };
    assert(hash@ =~= folded_page(text_first_page@, 0));
    let mut i: usize = 0;
    while i < n
        invariant
            n <= text_first_page@.len(),
            i <= n,
            hash@ == folded_page(text_first_page@, i as nat),
        decreases n - i,
    {
        let k = i % UUID_SIZE;
        hash[k] = hash[k] ^ text_first_page[i];
        i = i + 1;
    }
    hash
}

/// The sixteen bytes of four UUID fields, the first three big-endian.
pub open spec fn fields_bytes(d1: u32, d2: u16, d3: u16, d4: Seq<u8>) -> Seq<u8> {
    seq![
        (d1 / 0x100_0000) as u8,
        ((d1 / 0x1_0000) % 0x100) as u8,
        ((d1 / 0x100) % 0x100) as u8,
        (d1 % 0x100) as u8,
        (d2 / 0x100) as u8,
        (d2 % 0x100) as u8,
        (d3 / 0x100) as u8,
        (d3 % 0x100) as u8,
    ] + d4
}

/// The debug ID that `DebugId::from_uuid` makes of a UUID (appendix 0).
pub uninterp spec fn debug_id_of_uuid(uuid: Uuid) -> DebugId;

/// `Uuid::from_fields`: the UUID whose bytes are the four fields, the first
/// three big-endian (uuid's source builds it with `from_bytes` of them).
#[verifier::external_body]
fn uuid_from_fields(d1: u32, d2: u16, d3: u16, d4: &[u8; 8]) -> (u: Uuid)
    ensures
        u == uuid_of_bytes(fields_bytes(d1, d2, d3, d4@)),
{
    Uuid::from_fields(d1, d2, d3, d4)
}

/// `DebugId::from_uuid`: the debug ID of a UUID, with appendix 0, a function
/// of the UUID alone.
#[verifier::external_body]
fn debug_id_from_uuid(uuid: Uuid) -> (id: DebugId)
    ensures
        id == debug_id_of_uuid(uuid),
{
    DebugId::from_uuid(uuid)
}

/// The debug ID of a build identifier: the UUID of its fields (see
/// `identifier_fields`), with appendix 0.
pub open spec fn debug_id_of_identifier(identifier: Seq<u8>, little_endian: bool) -> DebugId {
    let (d1, d2, d3, d4) = identifier_fields(identifier, little_endian);
    debug_id_of_uuid(uuid_of_bytes(fields_bytes(d1 as u32, d2 as u16, d3 as u16, d4)))
}

/// Ways of making a debug ID from what an object file holds.
pub trait DebugIdExt: Sized {
    /// Creates a DebugId from some identifier. The identifier could be
    /// an ELF build ID, or a hash derived from the text section.
    /// The `little_endian` argument specifies whether the object file
    /// is targeting a little endian architecture.
    fn from_identifier(identifier: &[u8], little_endian: bool) -> Self;

    /// Creates a DebugId from a hash of the first 4096 bytes of the .text section.
    /// The `little_endian` argument specifies whether the object file
    /// is targeting a little endian architecture.
    fn from_text_first_page(text_first_page: &[u8], little_endian: bool) -> Self;
}

impl DebugIdExt for DebugId {
    fn from_identifier(identifier: &[u8], little_endian: bool) -> (id: DebugId)
        ensures
            id == debug_id_of_identifier(identifier@, little_endian),
    {
        let (d1, d2, d3, d4) = uuid_fields_from_identifier(identifier, little_endian);
        debug_id_from_uuid(uuid_from_fields(d1, d2, d3, &d4))
    }

    fn from_text_first_page(text_first_page: &[u8], little_endian: bool) -> (id: DebugId)
        ensures
            id == debug_id_of_identifier(
                folded_page(text_first_page@, if text_first_page@.len() < 4096 {
                    text_first_page@.len()
                } else {
                    4096
                }),
                little_endian,
            ),
    {
        let hash = fold_text_first_page(text_first_page);
        DebugId::from_identifier(&hash, little_endian)
    }
}

} // verus!
