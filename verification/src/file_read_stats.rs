//! Statistics over the reads of a file: how many bytes were read, and which
//! 32 KiB chunks of the file were touched at least once.
use bitvec::vec::BitVec;
use vstd::prelude::*;

verus! {

/// A `BitVec` of the `bitvec` crate, held where Verus does not look into it.
#[verifier::external_body]
pub struct ChunkBits {
    bits: BitVec,
}

/// The bits that a bit vector holds, in order.
pub uninterp spec fn bits(v: ChunkBits) -> Seq<bool>;

/// The number of set bits in `s`.
pub open spec fn count_set(s: Seq<bool>) -> nat
    decreases s.len(),
{
    if s.len() == 0 {
        0
    } else {
        count_set(s.drop_last()) + if s.last() {
            1nat
        } else {
            0nat
        }
    }
}

/// `BitVec::repeat(false, len)`: `len` cleared bits. It panics for more bits
/// than `BitSlice::MAX_BITS` (`usize::MAX >> 3`).
#[verifier::external_body]
fn bitvec_cleared(len: usize) -> (v: ChunkBits)
    requires
        len <= usize::MAX / 8,
    ensures
        bits(v) == Seq::new(len as nat, |i: int| false),
{
    ChunkBits { bits: BitVec::repeat(false, len) }
}

/// `BitSlice::count_ones` on the bits from `start` to `end`.
#[verifier::external_body]
fn count_ones_in(v: &ChunkBits, start: usize, end: usize) -> (n: usize)
    requires
        start <= end <= bits(*v).len(),
    ensures
        n == count_set(bits(*v).subrange(start as int, end as int)),
{
    v.bits[start..end].count_ones()
}

/// `BitSlice::count_ones` on all bits.
#[verifier::external_body]
fn count_ones_all(v: &ChunkBits) -> (n: usize)
    ensures
        n == count_set(bits(*v)),
{
    v.bits.count_ones()
}

/// Indexing: the bit at `i`.
#[verifier::external_body]
fn bit_at(v: &ChunkBits, i: usize) -> (b: bool)
    requires
        i < bits(*v).len(),
    ensures
        b == bits(*v)[i as int],
{
    v.bits[i]
}

/// `BitSlice::fill(true)` on the bits from `start` to `end`, which lie
/// within the vector, so that the indexing does not panic.
#[verifier::external_body]
fn set_bits(v: &mut ChunkBits, start: usize, end: usize)
    requires
        start <= end <= bits(*old(v)).len(),
    ensures
        bits(*final(v)) == Seq::new(
            bits(*old(v)).len(),
            |i: int| if start <= i < end { true } else { bits(*old(v))[i] },
        ),
    no_unwind
{
    v.bits[start..end].fill(true)
}

/// The size of a chunk.
pub const CHUNK_SIZE: u64 = 32 * 1024;

/// How a file was read.
pub struct FileReadStats {
    bytes_read: u64,
    unique_chunks_read: ChunkBits,
    read_call_count: u64,
}

/// The first chunk that a read of `size > 0` bytes at `offset` touches, and
/// the chunk after the last one it touches.
pub open spec fn chunk_range(offset: u64, size: u64) -> (int, int) {
    (offset as int / CHUNK_SIZE as int, (offset as int + size as int - 1) / CHUNK_SIZE as int + 1)
}

/// The bytes that a read adds to the total: the whole chunks it touches, less
/// what lies before the read in the first chunk when that chunk was read before.
pub open spec fn bytes_counted(offset: u64, size: u64, first_chunk_read: bool) -> int {
    let (start, end) = chunk_range(offset, size);
    if first_chunk_read {
        end * CHUNK_SIZE - offset
    } else {
        (end - start) * CHUNK_SIZE
    }
}

impl FileReadStats {
    #[verifier::type_invariant]
    spec fn chunk_count_fits(&self) -> bool {
        bits(self.unique_chunks_read).len() <= usize::MAX / 8
    }

    /// The bytes read so far, counting a chunk once per read that touched it
    /// while not all of its chunks had been read before.
    pub closed spec fn spec_bytes_read(&self) -> u64 {
        self.bytes_read
    }

    /// The number of reads that touched a chunk not read before.
    pub closed spec fn spec_read_call_count(&self) -> u64 {
        self.read_call_count
    }

    /// For each chunk of the file, whether it was read.
    pub closed spec fn chunks_read(&self) -> Seq<bool> {
        bits(self.unique_chunks_read)
    }

    /// Statistics for a file of `size_in_bytes` bytes that has not been read.
    pub fn new(size_in_bytes: u64) -> (s: Self)
        requires
            size_in_bytes > 0,
            (size_in_bytes - 1) / (CHUNK_SIZE as int) + 1 <= usize::MAX / 8,
        ensures
            s.spec_bytes_read() == 0,
            s.spec_read_call_count() == 0,
            s.chunks_read() == Seq::new(
                ((size_in_bytes - 1) / (CHUNK_SIZE as int) + 1) as nat,
                |i: int| false,
            ),
    {
        let chunk_count = (size_in_bytes - 1) / CHUNK_SIZE + 1;
        FileReadStats {
            bytes_read: 0,
            unique_chunks_read: bitvec_cleared(chunk_count as usize),
            read_call_count: 0,
        }
    }

    /// Records a read of `size` bytes at `offset`. A read that only touches
    /// chunks read before adds nothing; any other adds the bytes of the chunks
    /// it touches (from `offset` on, when its first chunk was read before) and
    /// counts as one more read. Its chunks are then marked as read.
    pub fn record_read(&mut self, offset: u64, size: u64)
        requires
            offset + size <= u64::MAX,
            size > 0 ==> chunk_range(offset, size).1 <= old(self).chunks_read().len(),
            size > 0 ==> chunk_range(offset, size).1 * CHUNK_SIZE <= u64::MAX,
            size > 0 ==> old(self).spec_bytes_read() + bytes_counted(
                offset,
                size,
                old(self).chunks_read()[chunk_range(offset, size).0],
            ) <= u64::MAX,
            old(self).spec_read_call_count() < u64::MAX,
        ensures
            size == 0 ==> *final(self) == *old(self),
            size > 0 ==> {
                let (start, end) = chunk_range(offset, size);
                let before = old(self).chunks_read();
                let all_read_before = count_set(before.subrange(start, end)) == end - start;
                &&& final(self).chunks_read() == Seq::new(
                    before.len(),
                    |i: int| if start <= i < end { true } else { before[i] },
                )
                &&& all_read_before ==> final(self).spec_bytes_read() == old(self).spec_bytes_read()
                    && final(self).spec_read_call_count() == old(self).spec_read_call_count()
                &&& !all_read_before ==> final(self).spec_bytes_read() == old(self).spec_bytes_read()
                    + bytes_counted(offset, size, before[start])
                    && final(self).spec_read_call_count() == old(self).spec_read_call_count() + 1
            },
    {
        proof {
            use_type_invariant(&*self);
        }
        if size == 0 {
            return;
        }
        let start = offset;
        let end = offset + size;
        let chunk_index_start = start / CHUNK_SIZE;
        let chunk_index_end = (end - 1) / CHUNK_SIZE + 1;
        assert(chunk_index_start < chunk_index_end) by (nonlinear_arith)
            requires
                chunk_index_start == start / 32768,
                chunk_index_end == (end - 1) / 32768 + 1,
                start < end,
        ;
        assert(chunk_index_start as int == chunk_range(offset, size).0);
        assert(chunk_index_end as int == chunk_range(offset, size).1);
        let first = chunk_index_start as usize;
        let last = chunk_index_end as usize;
        let ones = count_ones_in(&self.unique_chunks_read, first, last);
        if ones != (chunk_index_end - chunk_index_start) as usize {
            if bit_at(&self.unique_chunks_read, first) {
                assert(chunk_index_end * CHUNK_SIZE >= start) by (nonlinear_arith)
                    requires
                        chunk_index_end == (end - 1) / 32768 + 1,
                        start < end,
                ;
                assert(chunk_index_end * CHUNK_SIZE <= u64::MAX);
                self.bytes_read = self.bytes_read + (chunk_index_end * CHUNK_SIZE - start);
            } else {
                assert((chunk_index_end - chunk_index_start) * CHUNK_SIZE <= chunk_index_end * CHUNK_SIZE) by (nonlinear_arith)
                    requires
                        chunk_index_start <= chunk_index_end,
                ;
                self.bytes_read = self.bytes_read + (chunk_index_end - chunk_index_start) * CHUNK_SIZE;
            }
            self.read_call_count = self.read_call_count + 1;
        }
        set_bits(&mut self.unique_chunks_read, first, last);
    }

    /// The bytes of the chunks that were read.
    pub fn unique_bytes_read(&self) -> (n: u64)
        requires
            count_set(self.chunks_read()) * CHUNK_SIZE <= u64::MAX,
        ensures
            n == count_set(self.chunks_read()) * CHUNK_SIZE,
    {
        proof {
            use_type_invariant(self);
        }
        count_ones_all(&self.unique_chunks_read) as u64 * CHUNK_SIZE
    }

    /// The bytes read so far.
    pub fn bytes_read(&self) -> (n: u64)
        ensures
            n == self.spec_bytes_read(),
    {
        self.bytes_read
    }

    /// The number of reads that touched a chunk not read before.
    pub fn read_call_count(&self) -> (n: u64)
        ensures
            n == self.spec_read_call_count(),
    {
        self.read_call_count
    }
}

} // verus!
