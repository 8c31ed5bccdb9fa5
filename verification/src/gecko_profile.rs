//! Building a profile in the Gecko profile format: per-thread interning tables
//! for strings, frames and stacks, the recorded samples, and the process-level
//! builder that collects threads, libraries and subprocesses.
use std::collections::{BTreeMap, HashMap};
use std::time::{Duration, Instant};
use uuid::Uuid;
use crate::windows::{uuid_bytes_of, uuid_of_bytes};
use vstd::hash_map::StringHashMap;
use vstd::prelude::*;
use crate::text::{decimal, push_decimal, string_push, string_push_str};

verus! {

#[verifier::external_type_specification]
#[verifier::external_body]
pub struct ExInstant(Instant);

#[verifier::external_type_specification]
#[verifier::external_body]
pub struct ExUuid(Uuid);

// ---------------------------------------------------------------------------
// Hexadecimal text
// ---------------------------------------------------------------------------

/// The lowercase hexadecimal digit for `d` (taken modulo 16).
pub open spec fn hex_digit_lower(d: nat) -> char {
    seq!['0', '1', '2', '3', '4', '5', '6', '7', '8', '9', 'a', 'b', 'c', 'd', 'e', 'f'][(d % 16) as int]
}

/// The uppercase hexadecimal digit for `d` (taken modulo 16).
pub open spec fn hex_digit_upper(d: nat) -> char {
    seq!['0', '1', '2', '3', '4', '5', '6', '7', '8', '9', 'A', 'B', 'C', 'D', 'E', 'F'][(d % 16) as int]
}

/// The digits of `n` in base 16, lowercase, without leading zeros ("0" for zero).
pub open spec fn hex_lower(n: nat) -> Seq<char>
    decreases n,
{
    if n < 16 {
        seq![hex_digit_lower(n)]
    } else {
        hex_lower(n / 16).push(hex_digit_lower(n % 16))
    }
}

/// The label of a frame: its address as `0x` followed by lowercase hex digits.
pub open spec fn frame_location(address: u64) -> Seq<char> {
    seq!['0', 'x'] + hex_lower(address as nat)
}

/// Two uppercase hex digits for every byte, most significant nibble first.
pub open spec fn hex_upper_bytes(bytes: Seq<u8>) -> Seq<char>
    decreases bytes.len(),
{
    if bytes.len() == 0 {
        Seq::empty()
    } else {
        hex_upper_bytes(bytes.drop_last()).push(hex_digit_upper((bytes.last() / 16) as nat)).push(
            hex_digit_upper((bytes.last() % 16) as nat),
        )
    }
}

/// The breakpad ID of a library whose UUID has the given 16 bytes:
/// the bytes in uppercase hex followed by a `0` age digit.
pub open spec fn breakpad_id_of_uuid_bytes(bytes: Seq<u8>) -> Seq<char> {
    hex_upper_bytes(bytes).push('0')
}

fn lower_hex_digit(d: u8) -> (c: char)
    requires
        d < 16,
    ensures
        c == hex_digit_lower(d as nat),
{
    let digits: [char; 16] = ['0', '1', '2', '3', '4', '5', '6', '7', '8', '9', 'a', 'b', 'c', 'd', 'e', 'f'];
    assert(digits@ == seq!['0', '1', '2', '3', '4', '5', '6', '7', '8', '9', 'a', 'b', 'c', 'd', 'e', 'f']);
    digits[d as usize]
}

/// Appends the lowercase base-16 digits of `n`, without leading zeros.
pub(crate) fn push_hex_lower(s: &mut String, n: u64)
    ensures
        final(s)@ == old(s)@ + hex_lower(n as nat),
    decreases n,
{
    if n >= 16 {
        push_hex_lower(s, n / 16);
    }
    string_push(s, lower_hex_digit((n % 16) as u8));
    proof {
        if n < 16 {
            assert(hex_lower(n as nat) == seq![hex_digit_lower(n as nat)]);
        }
    }
}

/// The label of a frame: `0x` and the address in lowercase hex.
fn format_frame_location(address: u64) -> (s: String)
    ensures
        s@ == frame_location(address),
{
    let mut s = String::new();
    string_push(&mut s, '0');
    string_push(&mut s, 'x');
    push_hex_lower(&mut s, address);
    s
}

/// `Uuid::as_bytes`: the sixteen bytes of a UUID, those that `Uuid::from_bytes`
/// makes it of.
#[verifier::external_body]
pub(crate) fn uuid_bytes(uuid: &Uuid) -> (b: [u8; 16])
    ensures
        uuid_of_bytes(b@) == *uuid,
        b@ == uuid_bytes_of(*uuid),
{
    *uuid.as_bytes()
}

/// The whole number of microseconds that `Duration::as_micros` gives of a
/// duration.
pub uninterp spec fn micros_of(d: Duration) -> u128;

/// `Duration::as_micros`: the whole number of microseconds in a duration, a
/// function of the duration alone.
#[verifier::external_body]
fn duration_as_micros(d: Duration) -> (us: u128)
    ensures
        us == micros_of(d),
{
    d.as_micros()
}

pub(crate) fn upper_hex_digit(d: u8) -> (c: char)
    requires
        d < 16,
    ensures
        c == hex_digit_upper(d as nat),
{
    let digits: [char; 16] = ['0', '1', '2', '3', '4', '5', '6', '7', '8', '9', 'A', 'B', 'C', 'D', 'E', 'F'];
    assert(digits@ == seq!['0', '1', '2', '3', '4', '5', '6', '7', '8', '9', 'A', 'B', 'C', 'D', 'E', 'F']);
    digits[d as usize]
}

/// Formats the breakpad ID of a library from the bytes of its UUID.
pub fn breakpad_id_from_uuid_bytes(bytes: &[u8]) -> (s: String)
    ensures
        s@ == breakpad_id_of_uuid_bytes(bytes@),
{
    let mut s = String::new();
    let mut i: usize = 0;
    while i < bytes.len()
        invariant
            i <= bytes@.len(),
            s@ == hex_upper_bytes(bytes@.subrange(0, i as int)),
        decreases bytes@.len() - i,
    {
        let b = bytes[i];
        string_push(&mut s, upper_hex_digit(b / 16));
        string_push(&mut s, upper_hex_digit(b % 16));
        assert(bytes@.subrange(0, i + 1).drop_last() == bytes@.subrange(0, i as int));
        i = i + 1;
    }
    assert(bytes@.subrange(0, bytes@.len() as int) == bytes@);
    string_push(&mut s, '0');
    s
}

// ---------------------------------------------------------------------------
// String table
// ---------------------------------------------------------------------------

/// Interns strings: every distinct string gets the index of its first insertion.
pub struct StringTable {
    strings: Vec<String>,
    index: StringHashMap<usize>,
}

impl View for StringTable {
    type V = Seq<Seq<char>>;

    closed spec fn view(&self) -> Seq<Seq<char>> {
        self.strings@.map_values(|s: String| s@)
    }
}

/// Interning a string that a table already holds gives back the index it was
/// given before: in a well-formed string table a string sits at one position.
pub proof fn law_string_has_one_index(t: &StringTable, r1: int, r2: int)
    requires
        t.wf(),
        0 <= r1 < t@.len(),
        0 <= r2 < t@.len(),
        t@[r1] == t@[r2],
    ensures
        r1 == r2,
{
    t.lemma_no_duplicates();
}

/// Asking twice for the frame of an address gives the same frame: in a
/// well-formed frame table an address has one frame.
pub proof fn law_address_has_one_frame(t: &FrameTable, r1: int, r2: int)
    requires
        t.wf(),
        0 <= r1 < t@.len(),
        0 <= r2 < t@.len(),
        t@[r1].0 == t@[r2].0,
    ensures
        r1 == r2,
{
    t.lemma_addresses_distinct();
}

/// Asking twice for the stack of a list of frames gives the same stack: in a
/// well-formed stack table a list of frames has one stack.
pub proof fn law_frames_have_one_stack(t: &StackTable, i: int, j: int)
    requires
        t.wf(),
        0 <= i < t@.len(),
        0 <= j < t@.len(),
        stack_frames(t@, i) == stack_frames(t@, j),
    ensures
        i == j,
{
    t.lemma_wf();
}

impl StringTable {
    /// The table's index agrees with its list of strings.
    pub closed spec fn wf(&self) -> bool {
        &&& forall|i: int|
            0 <= i < self.strings@.len() ==> #[trigger] self.index@.contains_key(self.strings@[i]@)
                && self.index@[self.strings@[i]@] == i
        &&& forall|k: Seq<char>| #[trigger]
            self.index@.contains_key(k) ==> self.index@[k] < self.strings@.len()
                && self.strings@[self.index@[k] as int]@ == k
    }

    /// A well-formed table holds every string at most once.
    pub proof fn lemma_no_duplicates(&self)
        requires
            self.wf(),
        ensures
            self@.no_duplicates(),
    {
        assert forall|i: int, j: int|
            0 <= i < self@.len() && 0 <= j < self@.len() && i != j implies self@[i] != self@[j] by {
            assert(self.index@.contains_key(self.strings@[i]@));
            assert(self.index@.contains_key(self.strings@[j]@));
        }
    }

    pub fn new() -> (t: Self)
        ensures
            t.wf(),
            t@ == Seq::<Seq<char>>::empty(),
    {
        let t = StringTable { strings: Vec::new(), index: StringHashMap::new() };
        assert(t@ =~= Seq::<Seq<char>>::empty());
        t
    }

    /// Returns the index of `s`, adding it at the end if it is not in the table yet.
    pub fn index_for_string(&mut self, s: &str) -> (r: usize)
        requires
            old(self).wf(),
        ensures
            final(self).wf(),
            final(self)@ == (if old(self)@.contains(s@) {
                old(self)@
            } else {
                old(self)@.push(s@)
            }),
            r < final(self)@.len(),
            final(self)@[r as int] == s@,
    {
        match self.index.get(s) {
            Some(string_index) => {
                let string_index = *string_index;
                assert(self@[string_index as int] == s@);
                string_index
            },
            None => {
                let ghost old_view = self@;
                assert(!old_view.contains(s@)) by {
                    if old_view.contains(s@) {
                        let i = choose|i: int| 0 <= i < old_view.len() && old_view[i] == s@;
                        assert(self.index@.contains_key(self.strings@[i]@));
                    }
                }
                let string_index = self.strings.len();
                self.strings.push(s.to_owned());
                self.index.insert(s.to_owned(), string_index);
                assert(self@ =~= old_view.push(s@));
                assert forall|k: Seq<char>| #[trigger]
                    self.index@.contains_key(k) implies self.index@[k] < self.strings@.len()
                    && self.strings@[self.index@[k] as int]@ == k by {
                    if k != s@ {
                        assert(self.strings@[self.index@[k] as int] == old(self).strings@[self.index@[k] as int]);
                    }
                }
                assert forall|i: int|
                    0 <= i < self.strings@.len() implies #[trigger] self.index@.contains_key(self.strings@[i]@)
                    && self.index@[self.strings@[i]@] == i by {
                    if i < string_index {
                        assert(old(self).index@.contains_key(old(self).strings@[i]@));
                        assert(self.strings@[i]@ != s@) by {
                            assert(old_view[i] == old(self).strings@[i]@);
                        }
                    }
                }
                string_index
            },
        }
    }

    /// The interned strings, in index order.
    pub fn strings(&self) -> (r: &Vec<String>)
        ensures
            r@.map_values(|s: String| s@) == self@,
    {
        &self.strings
    }
}

// ---------------------------------------------------------------------------
// Frame table
// ---------------------------------------------------------------------------

/// One frame per distinct address; each frame refers to the string that labels it.
pub struct FrameTable {
    frames: Vec<usize>,
    index: BTreeMap<u64, usize>,
    addresses: Ghost<Seq<u64>>,
}

impl View for FrameTable {
    /// For every frame, its address and the index of its label in the string table.
    type V = Seq<(u64, usize)>;

    closed spec fn view(&self) -> Seq<(u64, usize)> {
        Seq::new(self.frames@.len(), |i: int| (self.addresses@[i], self.frames@[i]))
    }
}

impl FrameTable {
    pub closed spec fn wf(&self) -> bool {
        &&& self.frames@.len() == self.addresses@.len()
        &&& forall|i: int|
            0 <= i < self.addresses@.len() ==> #[trigger] self.index@.contains_key(self.addresses@[i])
                && self.index@[self.addresses@[i]] == i
        &&& forall|a: u64| #[trigger]
            self.index@.contains_key(a) ==> self.index@[a] < self.addresses@.len()
                && self.addresses@[self.index@[a] as int] == a
    }

    /// Every label index of the frame table refers to the label of its address in `strings`.
    pub open spec fn labels_agree(frames: Seq<(u64, usize)>, strings: Seq<Seq<char>>) -> bool {
        forall|i: int|
            0 <= i < frames.len() ==> #[trigger] frames[i].1 < strings.len() && strings[frames[i].1 as int]
                == frame_location(frames[i].0)
    }

    pub open spec fn has_address(frames: Seq<(u64, usize)>, address: u64) -> bool {
        exists|i: int| 0 <= i < frames.len() && #[trigger] frames[i].0 == address
    }

    /// A well-formed table holds every address at most once.
    pub proof fn lemma_addresses_distinct(&self)
        requires
            self.wf(),
        ensures
            forall|i: int, j: int|
                0 <= i < self@.len() && 0 <= j < self@.len() && #[trigger] self@[i].0 == #[trigger] self@[j].0
                    ==> i == j,
    {
        assert forall|i: int, j: int|
            0 <= i < self@.len() && 0 <= j < self@.len() && #[trigger] self@[i].0 == #[trigger] self@[j].0
                implies i == j by {
            assert(self.index@.contains_key(self.addresses@[i]));
            assert(self.index@.contains_key(self.addresses@[j]));
        }
    }

    pub fn new() -> (t: Self)
        ensures
            t.wf(),
            t@ == Seq::<(u64, usize)>::empty(),
    {
        let t = FrameTable { frames: Vec::new(), index: BTreeMap::new(), addresses: Ghost(Seq::empty()) };
        assert(t@ =~= Seq::<(u64, usize)>::empty());
        t
    }

    /// Returns the frame for `address`, creating it (and its label string) if needed.
    pub fn index_for_frame(&mut self, string_table: &mut StringTable, address: u64) -> (r: usize)
        requires
            old(self).wf(),
            old(string_table).wf(),
            Self::labels_agree(old(self)@, old(string_table)@),
        ensures
            final(self).wf(),
            final(string_table).wf(),
            Self::labels_agree(final(self)@, final(string_table)@),
            r < final(self)@.len(),
            final(self)@[r as int].0 == address,
            final(self)@[r as int].1 < final(string_table)@.len(),
            final(string_table)@[final(self)@[r as int].1 as int] == frame_location(address),
            Self::has_address(old(self)@, address) ==> {
                &&& final(self)@ == old(self)@
                &&& final(string_table)@ == old(string_table)@
            },
            !Self::has_address(old(self)@, address) ==> {
                &&& r == old(self)@.len()
                &&& final(self)@ == old(self)@.push(final(self)@[r as int])
                &&& final(string_table)@ == (if old(string_table)@.contains(frame_location(address)) {
                    old(string_table)@
                } else {
                    old(string_table)@.push(frame_location(address))
                })
            },
    {
        match self.index.get(&address) {
            Some(frame_index) => {
                let frame_index = *frame_index;
                assert(self@[frame_index as int].0 == address);
                frame_index
            },
            None => {
                proof {
                    if Self::has_address(self@, address) {
                        let i = choose|i: int| 0 <= i < self@.len() && #[trigger] self@[i].0 == address;
                        assert(self.index@.contains_key(self.addresses@[i]));
                    }
                }
                let ghost old_view = self@;
                let frame_index = self.frames.len();
                let location_string = format_frame_location(address);
                let location_string_index = string_table.index_for_string(location_string.as_str());
                self.frames.push(location_string_index);
                self.index.insert(address, frame_index);
                proof {
                    self.addresses@ = self.addresses@.push(address);
                }
                assert(self@ =~= old_view.push((address, location_string_index)));
                assert forall|i: int| 0 <= i < self@.len() implies #[trigger] self@[i].1 < string_table@.len()
                    && string_table@[self@[i].1 as int] == frame_location(self@[i].0) by {
                    if i < frame_index {
                        assert(self@[i] == old_view[i]);
                    }
                }
                assert forall|a: u64| #[trigger]
                    self.index@.contains_key(a) implies self.index@[a] < self.addresses@.len()
                    && self.addresses@[self.index@[a] as int] == a by {
                    if a != address {
                        assert(old(self).index@.contains_key(a));
                    }
                }
                assert forall|i: int|
                    0 <= i < self.addresses@.len() implies #[trigger] self.index@.contains_key(self.addresses@[i])
                    && self.index@[self.addresses@[i]] == i by {
                    if i < frame_index {
                        assert(old(self).index@.contains_key(old(self).addresses@[i]));
                        assert(old_view[i].0 == old(self).addresses@[i]);
                    }
                }
                frame_index
            },
        }
    }

    /// For every frame, the index of its label in the string table.
    pub fn frames(&self) -> (r: &Vec<usize>)
        ensures
            r@.len() == self@.len(),
            forall|i: int| 0 <= i < r@.len() ==> r@[i] == #[trigger] self@[i].1,
    {
        &self.frames
    }
}


// ---------------------------------------------------------------------------
// Stack table
// ---------------------------------------------------------------------------

/// The frames of stack `i`, outermost first: the frames of its prefix stack
/// followed by its own frame.
pub open spec fn stack_frames(stacks: Seq<(Option<usize>, usize)>, i: int) -> Seq<usize>
    decreases i,
{
    if 0 <= i < stacks.len() {
        match stacks[i].0 {
            Some(p) => if p < i {
                stack_frames(stacks, p as int).push(stacks[i].1)
            } else {
                Seq::empty()
            },
            None => seq![stacks[i].1],
        }
    } else {
        Seq::empty()
    }
}

/// Every stack's prefix is an earlier stack.
pub open spec fn prefixes_earlier(stacks: Seq<(Option<usize>, usize)>) -> bool {
    forall|i: int| 0 <= i < stacks.len() ==> (#[trigger] stacks[i].0 matches Some(p) ==> p < i)
}

/// Appending stacks does not change the frames of the existing ones.
pub proof fn lemma_stack_frames_extend(stacks: Seq<(Option<usize>, usize)>, more: Seq<(Option<usize>, usize)>, i: int)
    requires
        0 <= i < stacks.len(),
    ensures
        stack_frames(stacks + more, i) == stack_frames(stacks, i),
    decreases i,
{
    let all = stacks + more;
    assert(all[i] == stacks[i]);
    if let Some(p) = stacks[i].0 {
        if p < i {
            lemma_stack_frames_extend(stacks, more, p as int);
        }
    }
}

/// The frames of every stack of a table whose prefixes are earlier are non-empty.
pub proof fn lemma_stack_frames_nonempty(stacks: Seq<(Option<usize>, usize)>, i: int)
    requires
        prefixes_earlier(stacks),
        0 <= i < stacks.len(),
    ensures
        stack_frames(stacks, i).len() >= 1,
        stack_frames(stacks, i).last() == stacks[i].1,
    decreases i,
{
    if let Some(p) = stacks[i].0 {
        lemma_stack_frames_nonempty(stacks, p as int);
    }
}

/// In a table whose entries are distinct and whose prefixes are earlier, two
/// stacks with the same frames are the same stack.
pub proof fn lemma_stack_frames_injective(stacks: Seq<(Option<usize>, usize)>, i: int, j: int)
    requires
        prefixes_earlier(stacks),
        stacks.no_duplicates(),
        0 <= i < stacks.len(),
        0 <= j < stacks.len(),
        stack_frames(stacks, i) == stack_frames(stacks, j),
    ensures
        i == j,
    decreases i + j,
{
    lemma_stack_frames_nonempty(stacks, i);
    lemma_stack_frames_nonempty(stacks, j);
    match (stacks[i].0, stacks[j].0) {
        (Some(p), Some(q)) => {
            lemma_stack_frames_nonempty(stacks, p as int);
            lemma_stack_frames_nonempty(stacks, q as int);
            assert(stack_frames(stacks, p as int) == stack_frames(stacks, i).drop_last());
            assert(stack_frames(stacks, q as int) == stack_frames(stacks, j).drop_last());
            lemma_stack_frames_injective(stacks, p as int, q as int);
        },
        (Some(p), None) => {
            lemma_stack_frames_nonempty(stacks, p as int);
        },
        (None, Some(q)) => {
            lemma_stack_frames_nonempty(stacks, q as int);
        },
        (None, None) => {},
    }
    assert(stacks[i] == stacks[j]);
}

/// Every leading part of a stack's frames is the frames of some stack.
pub proof fn lemma_stack_prefixes_exist(stacks: Seq<(Option<usize>, usize)>, i: int, j: int)
    requires
        0 <= i < stacks.len(),
        1 <= j <= stack_frames(stacks, i).len(),
    ensures
        exists|t: int| 0 <= t < stacks.len() && #[trigger] stack_frames(stacks, t) == stack_frames(stacks, i).take(j),
    decreases i,
{
    let f = stack_frames(stacks, i);
    if j == f.len() {
        assert(f.take(j) == f);
        assert(stack_frames(stacks, i) == f.take(j));
    } else {
        match stacks[i].0 {
            Some(p) => {
                if p < i {
                    let g = stack_frames(stacks, p as int);
                    assert(f == g.push(stacks[i].1));
                    assert(f.take(j) == g.take(j));
                    lemma_stack_prefixes_exist(stacks, p as int, j);
                }
            },
            None => {},
        }
    }
}

/// Looking up frames that a table already holds as a stack adds no stack
/// and gives that stack: every leading part of the frames is already a
/// stack, and a lookup only creates stacks for leading parts that are not.
pub proof fn law_repeated_lookup_adds_no_stack(
    before: &StackTable,
    after: &StackTable,
    frames: Seq<usize>,
    first: usize,
    again: Option<usize>,
)
    requires
        before.wf(),
        after.wf(),
        first < before@.len(),
        stack_frames(before@, first as int) == frames,
        before@.len() <= after@.len() <= before@.len() + frames.len(),
        after@.subrange(0, before@.len() as int) == before@,
        forall|i: int|
            before@.len() <= i < after@.len() ==> #[trigger] stack_frames(after@, i) == frames.take(
                i - before@.len() + frames.len() - (after@.len() - before@.len()) + 1,
            ),
        forall|i: int, t: int|
            before@.len() <= i < after@.len() && 0 <= t < before@.len() ==> #[trigger] stack_frames(before@, t)
                != #[trigger] stack_frames(after@, i),
        again matches Some(i) ==> i < after@.len() && stack_frames(after@, i as int) == frames,
        again is Some,
    ensures
        after@ == before@,
        again == Some(first),
{
    if after@.len() > before@.len() {
        let i = before@.len() as int;
        let j = i - before@.len() + frames.len() - (after@.len() - before@.len()) + 1;
        lemma_stack_prefixes_exist(before@, first as int, j);
        let t = choose|t: int| 0 <= t < before@.len() && #[trigger] stack_frames(before@, t) == stack_frames(
            before@,
            first as int,
        ).take(j);
        assert(stack_frames(after@, i) == frames.take(j));
        assert(false);
    }
    assert(after@ =~= before@);
    after.lemma_wf();
    let r = again->0;
    assert(stack_frames(after@, r as int) == stack_frames(after@, first as int));
}

/// The stack of a list of frames is the stack of all but its last frame,
/// followed by that frame: a stack whose frames are `fs` and then `x` is
/// the entry of `x` whose prefix is the stack of `fs` (no prefix when `fs`
/// is empty).
pub proof fn law_stack_is_prefix_then_frame(t: &StackTable, i: int, fs: Seq<usize>, x: usize)
    requires
        t.wf(),
        0 <= i < t@.len(),
        stack_frames(t@, i) == fs.push(x),
    ensures
        t@[i].1 == x,
        fs.len() == 0 ==> t@[i].0 is None,
        fs.len() > 0 ==> (t@[i].0 matches Some(p) && p < i && stack_frames(t@, p as int) == fs),
{
    let stacks = t@;
    assert(fs.push(x).last() == x);
    assert(fs.push(x).drop_last() =~= fs);
    match stacks[i].0 {
        Some(p) => {
            assert(p < i);
            lemma_stack_frames_nonempty(stacks, p as int);
            assert(stack_frames(stacks, i) == stack_frames(stacks, p as int).push(stacks[i].1));
            assert(stack_frames(stacks, p as int).push(stacks[i].1).drop_last() =~= stack_frames(stacks, p as int));
        },
        None => {},
    }
}

/// The frames of a stack are frames of the table's stacks, so they lie
/// below any bound on those.
pub proof fn lemma_stack_frames_elems(stacks: Seq<(Option<usize>, usize)>, i: int, bound: int)
    requires
        forall|k: int| 0 <= k < stacks.len() ==> #[trigger] stacks[k].1 < bound,
    ensures
        forall|e: int| 0 <= e < stack_frames(stacks, i).len() ==> #[trigger] stack_frames(stacks, i)[e] < bound,
    decreases i,
{
    if 0 <= i < stacks.len() {
        match stacks[i].0 {
            Some(p) => {
                if p < i {
                    lemma_stack_frames_elems(stacks, p as int, bound);
                    let f = stack_frames(stacks, i);
                    let g = stack_frames(stacks, p as int);
                    assert(f == g.push(stacks[i].1));
                    assert forall|e: int| 0 <= e < f.len() implies #[trigger] f[e] < bound by {
                        if e < g.len() {
                            assert(f[e] == g[e]);
                        }
                    }
                }
            },
            None => {},
        }
    }
}

/// Interns stacks: a stack is a frame on top of an optional prefix stack.
pub struct StackTable {
    stacks: Vec<(Option<usize>, usize)>,
    index: BTreeMap<(Option<usize>, usize), usize>,
}

impl View for StackTable {
    /// For every stack, its prefix stack and its frame index.
    type V = Seq<(Option<usize>, usize)>;

    closed spec fn view(&self) -> Seq<(Option<usize>, usize)> {
        self.stacks@
    }
}

impl StackTable {
    pub closed spec fn wf(&self) -> bool {
        &&& prefixes_earlier(self.stacks@)
        &&& forall|i: int|
            0 <= i < self.stacks@.len() ==> #[trigger] self.index@.contains_key(self.stacks@[i])
                && self.index@[self.stacks@[i]] == i
        &&& forall|k: (Option<usize>, usize)| #[trigger]
            self.index@.contains_key(k) ==> self.index@[k] < self.stacks@.len()
                && self.stacks@[self.index@[k] as int] == k
    }

    /// A well-formed table holds distinct entries whose prefixes are earlier,
    /// so that no two of its stacks have the same frames.
    pub proof fn lemma_wf(&self)
        requires
            self.wf(),
        ensures
            prefixes_earlier(self@),
            self@.no_duplicates(),
            forall|i: int, j: int|
                0 <= i < self@.len() && 0 <= j < self@.len() && #[trigger] stack_frames(self@, i)
                    == #[trigger] stack_frames(self@, j) ==> i == j,
    {
        assert forall|i: int, j: int|
            0 <= i < self@.len() && 0 <= j < self@.len() && i != j implies self@[i] != self@[j] by {
            assert(self.index@.contains_key(self.stacks@[i]));
            assert(self.index@.contains_key(self.stacks@[j]));
        }
        assert forall|i: int, j: int|
            0 <= i < self@.len() && 0 <= j < self@.len() && #[trigger] stack_frames(self@, i)
                == #[trigger] stack_frames(self@, j) implies i == j by {
            lemma_stack_frames_injective(self@, i, j);
        }
    }

    pub fn new() -> (t: Self)
        ensures
            t.wf(),
            t@ == Seq::<(Option<usize>, usize)>::empty(),
    {
        StackTable { stacks: Vec::new(), index: BTreeMap::new() }
    }

    /// Returns the stack whose frames are `frame_indexes` (outermost first),
    /// creating the missing stacks; `None` for an empty list of frames.
    pub fn index_for_frames(&mut self, frame_indexes: &[usize]) -> (r: Option<usize>)
        requires
            old(self).wf(),
        ensures
            final(self).wf(),
            old(self)@.len() <= final(self)@.len() <= old(self)@.len() + frame_indexes@.len(),
            final(self)@.subrange(0, old(self)@.len() as int) == old(self)@,
            forall|i: int|
                old(self)@.len() <= i < final(self)@.len() ==> #[trigger] final(self)@[i].1
                    == frame_indexes@[i - old(self)@.len() + frame_indexes@.len() - (final(self)@.len()
                    - old(self)@.len())],
            r is None <==> frame_indexes@.len() == 0,
            r matches Some(i) ==> i < final(self)@.len() && stack_frames(final(self)@, i as int)
                == frame_indexes@,
            forall|i: int|
                old(self)@.len() <= i < final(self)@.len() ==> #[trigger] stack_frames(final(self)@, i)
                    == frame_indexes@.take(i - old(self)@.len() + frame_indexes@.len() - (final(self)@.len()
                    - old(self)@.len()) + 1),
            forall|i: int, t: int|
                old(self)@.len() <= i < final(self)@.len() && 0 <= t < old(self)@.len() ==> #[trigger] stack_frames(
                    old(self)@,
                    t,
                ) != #[trigger] stack_frames(final(self)@, i),
            forall|t: int|
                0 <= t < old(self)@.len() && #[trigger] stack_frames(old(self)@, t) == frame_indexes@ ==> r == Some(
                    t as usize,
                ) && final(self)@ == old(self)@,
    {
        let ghost old_view = self@;
        let mut prefix: Option<usize> = None;
        let mut k: usize = 0;
        while k < frame_indexes.len()
            invariant
                k <= frame_indexes@.len(),
                self.wf(),
                old_view.len() <= self@.len() <= old_view.len() + k,
                self@.subrange(0, old_view.len() as int) == old_view,
                forall|i: int|
                    old_view.len() <= i < self@.len() ==> #[trigger] self@[i].1 == frame_indexes@[i
                        - old_view.len() + k - (self@.len() - old_view.len())],
                prefix is None <==> k == 0,
                prefix matches Some(p) ==> p < self@.len() && stack_frames(self@, p as int)
                    == frame_indexes@.subrange(0, k as int),
                self@.len() > old_view.len() ==> (prefix matches Some(p) && p + 1 == self@.len()),
                forall|i: int|
                    old_view.len() <= i < self@.len() ==> #[trigger] stack_frames(self@, i) == frame_indexes@.take(
                        i - old_view.len() + k - (self@.len() - old_view.len()) + 1,
                    ),
            decreases frame_indexes@.len() - k,
        {
            let frame_index = frame_indexes[k];
            let key = (prefix, frame_index);
            match self.index.get(&key) {
                Some(stack_index) => {
                    let stack_index = *stack_index;
                    assert(self@[stack_index as int] == key);
                    assert(frame_indexes@.subrange(0, k + 1) == frame_indexes@.subrange(0, k as int).push(frame_index));
                    proof {
                        if self@.len() > old_view.len() {
                            // The newest stack was created in this call and is the current
                            // prefix; no stack can have it as prefix yet.
                            assert(self.stacks@[stack_index as int].0 == prefix);
                            assert(false);
                        }
                    }
                    prefix = Some(stack_index);
                },
                None => {
                    let ghost before = self@;
                    let stack_index = self.stacks.len();
                    self.stacks.push(key);
                    self.index.insert(key, stack_index);
                    assert(self@ == before.push(key));
                    proof {
                        if let Some(p) = prefix {
                            lemma_stack_frames_extend(before, seq![key], p as int);
                        }
                        assert(before + seq![key] == self@);
                    }
                    assert(frame_indexes@.subrange(0, k + 1) == frame_indexes@.subrange(0, k as int).push(frame_index));
                    assert forall|kk: (Option<usize>, usize)| #[trigger]
                        self.index@.contains_key(kk) implies self.index@[kk] < self.stacks@.len()
                        && self.stacks@[self.index@[kk] as int] == kk by {
                        if kk != key {
                            assert(before[self.index@[kk] as int] == kk);
                        }
                    }
                    assert forall|i: int|
                        0 <= i < self.stacks@.len() implies #[trigger] self.index@.contains_key(self.stacks@[i])
                        && self.index@[self.stacks@[i]] == i by {
                        if i < stack_index {
                            assert(self.stacks@[i] == before[i]);
                            assert(self.index@.contains_key(before[i]));
                        }
                    }
                    assert(self@.subrange(0, old_view.len() as int) == before.subrange(0, old_view.len() as int));
                    assert forall|i: int|
                        old_view.len() <= i < self@.len() implies #[trigger] self@[i].1 == frame_indexes@[i
                            - old_view.len() + (k + 1) - (self@.len() - old_view.len())] by {
                        if i < stack_index {
                            assert(self@[i] == before[i]);
                        }
                    }
                    proof {
                        assert(frame_indexes@.take(k + 1) == frame_indexes@.subrange(0, k + 1));
                        if let Some(p) = prefix {
                            assert(frame_indexes@.take(k as int) == frame_indexes@.subrange(0, k as int));
                            assert(stack_frames(self@, p as int) == stack_frames(before, p as int));
                            assert(stack_frames(self@, stack_index as int) == frame_indexes@.take(k + 1));
                        } else {
                            assert(frame_indexes@.subrange(0, 1) =~= seq![frame_index]);
                        }
                        assert forall|i: int|
                            old_view.len() <= i < self@.len() implies #[trigger] stack_frames(self@, i)
                            == frame_indexes@.take(i - old_view.len() + (k + 1) - (self@.len() - old_view.len()) + 1) by {
                            if i < stack_index {
                                lemma_stack_frames_extend(before, seq![key], i);
                            }
                        }
                    }
                    prefix = Some(stack_index);
                },
            }
            k = k + 1;
        }
        proof {
            self.lemma_wf();
            let rest = self@.subrange(old_view.len() as int, self@.len() as int);
            assert(self@ == old_view + rest);
            assert forall|i: int, t: int|
                old_view.len() <= i < self@.len() && 0 <= t < old_view.len() implies #[trigger] stack_frames(old_view, t)
                != #[trigger] stack_frames(self@, i) by {
                lemma_stack_frames_extend(old_view, rest, t);
            }
        }
        proof {
            let before = &*old(self);
            let after = &*self;
            assert(before.stacks.len() as int == before@.len());
            assert(frame_indexes@.take(frame_indexes@.len() as int) =~= frame_indexes@);
            assert forall|t: int|
                0 <= t < before@.len() && #[trigger] stack_frames(before@, t) == frame_indexes@ implies prefix == Some(
                    t as usize,
                ) && after@ == before@ by {
                law_repeated_lookup_adds_no_stack(before, after, frame_indexes@, t as usize, prefix);
            }
        }
        prefix
    }

    /// For every stack, its prefix stack and its frame index.
    pub fn stacks(&self) -> (r: &Vec<(Option<usize>, usize)>)
        ensures
            r@ == self@,
    {
        &self.stacks
    }
}


// ---------------------------------------------------------------------------
// Samples
// ---------------------------------------------------------------------------

/// One sample: when it was taken, the stack it hit, and the CPU time since the
/// previous sample in microseconds.
pub struct Sample {
    pub timestamp: Instant,
    pub stack_index: Option<usize>,
    pub cpu_delta_us: u64,
}

/// The samples of a thread, in the order they were added.
pub struct SampleTable(pub Vec<Sample>);

// ---------------------------------------------------------------------------
// Threads
// ---------------------------------------------------------------------------

/// Collects the samples of one thread together with its interning tables.
pub struct ThreadBuilder {
    pid: u32,
    index: u32,
    name: Option<String>,
    start_time: Instant,
    end_time: Option<Instant>,
    is_main: bool,
    is_libdispatch_thread: bool,
    stack_table: StackTable,
    frame_table: FrameTable,
    samples: SampleTable,
    string_table: StringTable,
}

/// A thread's samples with different frames get different stacks: a stack
/// the thread already had keeps its frames when a later sample is recorded,
/// so a later sample whose frames differ cannot be given that stack.
pub proof fn law_different_frames_get_different_stacks(
    before: &ThreadBuilder,
    after: &ThreadBuilder,
    first: int,
    frames: Seq<u64>,
    again: int,
)
    requires
        before.wf(),
        after.wf(),
        0 <= first < before.spec_stacks().len(),
        before.spec_stacks().is_prefix_of(after.spec_stacks()),
        before.spec_frames().is_prefix_of(after.spec_frames()),
        0 <= again < after.spec_stacks().len(),
        after.stack_addresses(again) == frames,
        frames != before.stack_addresses(first),
    ensures
        again != first,
{
    let bs = before.spec_stacks();
    let rest = after.spec_stacks().subrange(bs.len() as int, after.spec_stacks().len() as int);
    assert(after.spec_stacks() =~= bs + rest);
    lemma_stack_frames_extend(bs, rest, first);
    let f = stack_frames(bs, first);
    lemma_stack_frames_elems(bs, first, before.spec_frames().len() as int);
    assert(after.stack_addresses(first) =~= before.stack_addresses(first)) by {
        assert forall|k: int| 0 <= k < f.len() implies after.spec_frames()[f[k] as int]
            == before.spec_frames()[f[k] as int] by {}
    }
}

/// A thread's samples with equal frames share one stack: recording a sample
/// whose frames are those of a stack the thread already has adds no stack and
/// gives that stack.
pub proof fn law_equal_frames_reuse_stack(
    before: &ThreadBuilder,
    after: &ThreadBuilder,
    frames: Seq<u64>,
    earlier: int,
    r: Option<usize>,
)
    requires
        before.wf(),
        after.wf(),
        0 <= earlier < before.spec_stacks().len(),
        before.stack_addresses(earlier) == frames,
        before.spec_stacks().is_prefix_of(after.spec_stacks()),
        before.spec_frames().is_prefix_of(after.spec_frames()),
        after.spec_stacks().len() <= before.spec_stacks().len() + frames.len(),
        forall|i: int|
            before.spec_stacks().len() <= i < after.spec_stacks().len()
                ==> #[trigger] after.stack_addresses(i) == frames.take(
                i - before.spec_stacks().len() + frames.len() - (after.spec_stacks().len()
                    - before.spec_stacks().len()) + 1,
            ),
        forall|i: int, t: int|
            before.spec_stacks().len() <= i < after.spec_stacks().len() && 0 <= t < before.spec_stacks().len()
                ==> #[trigger] before.stack_addresses(t) != #[trigger] after.stack_addresses(i),
        r matches Some(s) ==> s < after.spec_stacks().len() && after.stack_addresses(s as int) == frames,
        r is Some,
    ensures
        after.spec_stacks() == before.spec_stacks(),
        r == Some(earlier as usize),
{
    let bs = before.spec_stacks();
    let f_earlier = stack_frames(bs, earlier);
    if after.spec_stacks().len() > bs.len() {
        let i = bs.len() as int;
        let j = i - bs.len() + frames.len() - (after.spec_stacks().len() - bs.len()) + 1;
        assert(f_earlier.len() == frames.len());
        lemma_stack_prefixes_exist(bs, earlier, j);
        let t = choose|t: int| 0 <= t < bs.len() && #[trigger] stack_frames(bs, t) == f_earlier.take(j);
        assert(before.stack_addresses(t) =~= frames.take(j));
        assert(after.stack_addresses(i) == frames.take(j));
        assert(before.stack_addresses(t) != after.stack_addresses(i));
        assert(false);
    }
    assert(after.spec_stacks() =~= bs);
    let s = r->0 as int;
    lemma_stack_frames_elems(bs, earlier, before.spec_frames().len() as int);
    assert(after.stack_addresses(earlier) =~= frames) by {
        assert forall|k: int| 0 <= k < f_earlier.len() implies after.spec_frames()[f_earlier[k] as int]
            == before.spec_frames()[f_earlier[k] as int] by {}
    }
    after.frame_table.lemma_addresses_distinct();
    let fs = stack_frames(after.spec_stacks(), s);
    lemma_stack_frames_elems(after.spec_stacks(), s, after.spec_frames().len() as int);
    lemma_stack_frames_elems(after.spec_stacks(), earlier, after.spec_frames().len() as int);
    assert(after.stack_addresses(s).len() == fs.len());
    assert(fs.len() == f_earlier.len());
    assert forall|k: int| 0 <= k < fs.len() implies fs[k] == f_earlier[k] by {
        assert(after.stack_addresses(s)[k] == after.stack_addresses(earlier)[k]);
    }
    assert(fs =~= f_earlier);
    after.stack_table.lemma_wf();
}

impl ThreadBuilder {
    /// The tables are well-formed and refer to each other consistently.
    pub closed spec fn wf(&self) -> bool {
        &&& self.stack_table.wf()
        &&& self.frame_table.wf()
        &&& self.string_table.wf()
        &&& FrameTable::labels_agree(self.frame_table@, self.string_table@)
        &&& forall|i: int|
            0 <= i < self.stack_table@.len() ==> #[trigger] self.stack_table@[i].1 < self.frame_table@.len()
    }

    pub closed spec fn spec_pid(&self) -> u32 { self.pid }
    pub closed spec fn spec_tid(&self) -> u32 { self.index }
    pub closed spec fn spec_name(&self) -> Option<Seq<char>> {
        match self.name { Some(n) => Some(n@), None => None }
    }
    pub closed spec fn spec_start_time(&self) -> Instant { self.start_time }
    pub closed spec fn spec_end_time(&self) -> Option<Instant> { self.end_time }
    pub closed spec fn spec_is_main(&self) -> bool { self.is_main }
    pub closed spec fn spec_is_libdispatch_thread(&self) -> bool { self.is_libdispatch_thread }

    /// The name that the profile shows for the thread: the main thread is
    /// always "GeckoMain", then comes the name it was given, then
    /// "libdispatch" for a libdispatch thread, then "Thread <index>".
    pub open spec fn spec_display_name(&self) -> Seq<char> {
        if self.spec_is_main() {
            "GeckoMain"@
        } else if self.spec_name() is Some {
            self.spec_name()->0
        } else if self.spec_is_libdispatch_thread() {
            "libdispatch"@
        } else {
            "Thread <"@ + decimal(self.spec_tid() as nat) + ">"@
        }
    }

    /// The name that the profile shows for the thread.
    pub fn display_name(&self) -> (n: String)
        ensures
            n@ == self.spec_display_name(),
    {
        if self.is_main {
            "GeckoMain".to_owned()
        } else if let Some(name) = &self.name {
            name.clone()
        } else if self.is_libdispatch_thread {
            "libdispatch".to_owned()
        } else {
            let mut n = "Thread <".to_owned();
            push_decimal(&mut n, self.index as u64);
            string_push_str(&mut n, ">");
            n
        }
    }
    pub closed spec fn spec_stacks(&self) -> Seq<(Option<usize>, usize)> { self.stack_table@ }
    pub closed spec fn spec_frames(&self) -> Seq<(u64, usize)> { self.frame_table@ }
    pub closed spec fn spec_strings(&self) -> Seq<Seq<char>> { self.string_table@ }
    pub closed spec fn spec_samples(&self) -> Seq<Sample> { self.samples.0@ }

    /// The addresses of the frames of stack `s`, outermost first.
    pub open spec fn stack_addresses(&self, s: int) -> Seq<u64> {
        stack_frames(self.spec_stacks(), s).map_values(|f: usize| self.spec_frames()[f as int].0)
    }

    /// Everything but the samples, the end time and the name is as in `other`.
    pub open spec fn same_identity(&self, other: &Self) -> bool {
        &&& self.spec_pid() == other.spec_pid()
        &&& self.spec_tid() == other.spec_tid()
        &&& self.spec_start_time() == other.spec_start_time()
        &&& self.spec_is_main() == other.spec_is_main()
        &&& self.spec_is_libdispatch_thread() == other.spec_is_libdispatch_thread()
    }

    pub fn new(pid: u32, thread_index: u32, start_time: Instant, is_main: bool, is_libdispatch_thread: bool) -> (t: Self)
        ensures
            t.wf(),
            t.spec_pid() == pid,
            t.spec_tid() == thread_index,
            t.spec_name() is None,
            t.spec_start_time() == start_time,
            t.spec_end_time() is None,
            t.spec_is_main() == is_main,
            t.spec_is_libdispatch_thread() == is_libdispatch_thread,
            t.spec_stacks().len() == 0,
            t.spec_frames().len() == 0,
            t.spec_strings().len() == 0,
            t.spec_samples().len() == 0,
    {
        ThreadBuilder {
            pid,
            index: thread_index,
            name: None,
            start_time,
            end_time: None,
            is_main,
            is_libdispatch_thread,
            stack_table: StackTable::new(),
            frame_table: FrameTable::new(),
            samples: SampleTable(Vec::new()),
            string_table: StringTable::new(),
        }
    }

    pub fn get_start_time(&self) -> (t: Instant)
        ensures
            t == self.spec_start_time(),
    {
        self.start_time
    }

    pub fn set_name(&mut self, name: &str)
        ensures
            final(self).spec_name() == Some(name@),
            final(self).same_identity(old(self)),
            final(self).spec_end_time() == old(self).spec_end_time(),
            final(self).spec_samples() == old(self).spec_samples(),
            final(self).spec_stacks() == old(self).spec_stacks(),
            final(self).spec_frames() == old(self).spec_frames(),
            final(self).spec_strings() == old(self).spec_strings(),
            old(self).wf() ==> final(self).wf(),
    {
        self.name = Some(name.to_owned());
    }

    pub fn get_name(&self) -> (n: Option<&str>)
        ensures
            match n {
                Some(s) => self.spec_name() == Some(s@),
                None => self.spec_name() is None,
            },
    {
        match &self.name {
            Some(name) => Some(name.as_str()),
            None => None,
        }
    }

    pub fn get_tid(&self) -> (tid: u32)
        ensures
            tid == self.spec_tid(),
    {
        self.index
    }

    /// Records a sample whose stack has the frames at `frames` (outermost first)
    /// and returns the index of that stack, `None` for an empty stack.
    pub fn add_sample(&mut self, timestamp: Instant, frames: &[u64], cpu_delta: Duration) -> (r: Option<usize>)
        requires
            old(self).wf(),
        ensures
            final(self).wf(),
            final(self).same_identity(old(self)),
            final(self).spec_name() == old(self).spec_name(),
            final(self).spec_end_time() == old(self).spec_end_time(),
            r is None <==> frames@.len() == 0,
            r matches Some(s) ==> s < final(self).spec_stacks().len() && final(self).stack_addresses(s as int)
                == frames@,
            final(self).spec_samples().len() == old(self).spec_samples().len() + 1,
            final(self).spec_samples().drop_last() == old(self).spec_samples(),
            final(self).spec_samples().last().timestamp == timestamp,
            final(self).spec_samples().last().stack_index == r,
            final(self).spec_samples().last().cpu_delta_us == micros_of(cpu_delta) as u64,
            old(self).spec_stacks().is_prefix_of(final(self).spec_stacks()),
            final(self).spec_stacks().len() <= old(self).spec_stacks().len() + frames@.len(),
            forall|i: int|
                old(self).spec_stacks().len() <= i < final(self).spec_stacks().len()
                    ==> #[trigger] final(self).stack_addresses(i) == frames@.take(
                    i - old(self).spec_stacks().len() + frames@.len()
                        - (final(self).spec_stacks().len() - old(self).spec_stacks().len()) + 1,
                ),
            forall|i: int, t: int|
                old(self).spec_stacks().len() <= i < final(self).spec_stacks().len()
                    && 0 <= t < old(self).spec_stacks().len()
                    ==> #[trigger] old(self).stack_addresses(t) != #[trigger] final(self).stack_addresses(i),
            old(self).spec_frames().is_prefix_of(final(self).spec_frames()),
            old(self).spec_strings().is_prefix_of(final(self).spec_strings()),
            forall|t: int|
                0 <= t < old(self).spec_stacks().len() && #[trigger] old(self).stack_addresses(t) == frames@ ==> r
                    == Some(t as usize) && final(self).spec_stacks() == old(self).spec_stacks(),
            forall|t: int|
                0 <= t < old(self).spec_stacks().len() && #[trigger] old(self).stack_addresses(t) != frames@ ==> (r
                    matches Some(s) ==> s != t),
    {
        let stack_index = self.stack_index_for_frames(frames);
        let ghost mid = *self;
        let cpu_delta_us = duration_as_micros(cpu_delta) as u64;
        self.samples.0.push(Sample { timestamp, stack_index, cpu_delta_us });
        assert(self.spec_samples().drop_last() =~= old(self).spec_samples());
        proof {
            assert(self.spec_stacks() == mid.spec_stacks());
            assert(self.spec_frames() == mid.spec_frames());
            assert forall|i: int| 0 <= i < self.spec_stacks().len() implies #[trigger] self.stack_addresses(i)
                == mid.stack_addresses(i) by {}
        }
        proof {
            let before = &*old(self);
            let after = &*self;
            assert forall|t: int|
                0 <= t < before.spec_stacks().len() && #[trigger] before.stack_addresses(t) == frames@ implies stack_index
                    == Some(t as usize) && after.spec_stacks() == before.spec_stacks() by {
                law_equal_frames_reuse_stack(before, after, frames@, t, stack_index);
            }
            assert forall|t: int|
                0 <= t < before.spec_stacks().len() && #[trigger] before.stack_addresses(t) != frames@ implies (
                stack_index matches Some(s) ==> s != t) by {
                if let Some(s) = stack_index {
                    assert(s < after.spec_stacks().len() && after.stack_addresses(s as int) == frames@);
                    law_different_frames_get_different_stacks(before, after, t, frames@, s as int);
                    assert(s as int != t);
                }
            }
        }
        stack_index
    }

    /// Records a sample that hit `previous_stack` again.
    pub fn add_sample_same_stack(&mut self, timestamp: Instant, previous_stack: Option<usize>, cpu_delta: Duration)
        requires
            old(self).wf(),
        ensures
            final(self).wf(),
            final(self).same_identity(old(self)),
            final(self).spec_name() == old(self).spec_name(),
            final(self).spec_end_time() == old(self).spec_end_time(),
            final(self).spec_stacks() == old(self).spec_stacks(),
            final(self).spec_frames() == old(self).spec_frames(),
            final(self).spec_strings() == old(self).spec_strings(),
            final(self).spec_samples().len() == old(self).spec_samples().len() + 1,
            final(self).spec_samples().drop_last() == old(self).spec_samples(),
            final(self).spec_samples().last().timestamp == timestamp,
            final(self).spec_samples().last().stack_index == previous_stack,
            final(self).spec_samples().last().cpu_delta_us == micros_of(cpu_delta) as u64,
    {
        let cpu_delta_us = duration_as_micros(cpu_delta) as u64;
        self.samples.0.push(Sample { timestamp, stack_index: previous_stack, cpu_delta_us });
        assert(self.spec_samples().drop_last() =~= old(self).spec_samples());
    }

    pub fn notify_dead(&mut self, end_time: Instant)
        ensures
            final(self).spec_end_time() == Some(end_time),
            final(self).same_identity(old(self)),
            final(self).spec_name() == old(self).spec_name(),
            final(self).spec_samples() == old(self).spec_samples(),
            final(self).spec_stacks() == old(self).spec_stacks(),
            final(self).spec_frames() == old(self).spec_frames(),
            final(self).spec_strings() == old(self).spec_strings(),
            old(self).wf() ==> final(self).wf(),
    {
        self.end_time = Some(end_time);
    }

    fn stack_index_for_frames(&mut self, frames: &[u64]) -> (r: Option<usize>)
        requires
            old(self).wf(),
        ensures
            final(self).wf(),
            final(self).same_identity(old(self)),
            final(self).spec_name() == old(self).spec_name(),
            final(self).spec_end_time() == old(self).spec_end_time(),
            final(self).spec_samples() == old(self).spec_samples(),
            r is None <==> frames@.len() == 0,
            r matches Some(s) ==> s < final(self).spec_stacks().len() && final(self).stack_addresses(s as int)
                == frames@,
            old(self).spec_stacks().is_prefix_of(final(self).spec_stacks()),
            final(self).spec_stacks().len() <= old(self).spec_stacks().len() + frames@.len(),
            forall|i: int|
                old(self).spec_stacks().len() <= i < final(self).spec_stacks().len()
                    ==> #[trigger] final(self).stack_addresses(i) == frames@.take(
                    i - old(self).spec_stacks().len() + frames@.len()
                        - (final(self).spec_stacks().len() - old(self).spec_stacks().len()) + 1,
                ),
            forall|i: int, t: int|
                old(self).spec_stacks().len() <= i < final(self).spec_stacks().len()
                    && 0 <= t < old(self).spec_stacks().len()
                    ==> #[trigger] old(self).stack_addresses(t) != #[trigger] final(self).stack_addresses(i),
            old(self).spec_frames().is_prefix_of(final(self).spec_frames()),
            old(self).spec_strings().is_prefix_of(final(self).spec_strings()),
    {
        let mut frame_indexes: Vec<usize> = Vec::new();
        let mut j: usize = 0;
        while j < frames.len()
            invariant
                j <= frames@.len(),
                frame_indexes@.len() == j,
                self.wf(),
                self.same_identity(old(self)),
                self.spec_name() == old(self).spec_name(),
                self.spec_end_time() == old(self).spec_end_time(),
                self.spec_samples() == old(self).spec_samples(),
                self.spec_stacks() == old(self).spec_stacks(),
                old(self).spec_frames().is_prefix_of(self.spec_frames()),
                old(self).spec_strings().is_prefix_of(self.spec_strings()),
                forall|t: int|
                    0 <= t < j ==> #[trigger] frame_indexes@[t] < self.spec_frames().len()
                        && self.spec_frames()[frame_indexes@[t] as int].0 == frames@[t],
            decreases frames@.len() - j,
        {
            let ghost before = *self;
            let frame_index = self.frame_index_for_address(frames[j]);
            frame_indexes.push(frame_index);
            proof {
                assert forall|t: int|
                    0 <= t < j + 1 implies #[trigger] frame_indexes@[t] < self.spec_frames().len()
                        && self.spec_frames()[frame_indexes@[t] as int].0 == frames@[t] by {
                    if t < j {
                        assert(before.spec_frames()[frame_indexes@[t] as int] == self.spec_frames()[frame_indexes@[t] as int]);
                    }
                }
                assert forall|i: int|
                    0 <= i < self.stack_table@.len() implies #[trigger] self.stack_table@[i].1 < self.frame_table@.len() by {
                    assert(before.stack_table@[i].1 < before.frame_table@.len());
                }
            }
            j = j + 1;
        }
        let ghost before_stacks = self.spec_stacks();
        let r = self.stack_table.index_for_frames(frame_indexes.as_slice());
        proof {
            assert forall|i: int|
                0 <= i < self.stack_table@.len() implies #[trigger] self.stack_table@[i].1 < self.frame_table@.len() by {
                if i < before_stacks.len() {
                    assert(self.stack_table@.subrange(0, before_stacks.len() as int)[i] == before_stacks[i]);
                }
            }
            if let Some(s) = r {
                assert(self.stack_addresses(s as int) =~= frames@);
            }
            assert(before_stacks.is_prefix_of(self.spec_stacks())) by {
                assert(self.stack_table@.subrange(0, before_stacks.len() as int) == before_stacks);
            }
            let n = frames@.len();
            let added = self.spec_stacks().len() - before_stacks.len();
            assert forall|i: int| before_stacks.len() <= i < self.spec_stacks().len() implies #[trigger] self.stack_addresses(i)
                == frames@.take(i - before_stacks.len() + n - added + 1) by {
                let j = i - before_stacks.len() + n - added + 1;
                assert(stack_frames(self.spec_stacks(), i) == frame_indexes@.take(j));
                assert(self.stack_addresses(i) =~= frames@.take(j));
            }
            self.frame_table.lemma_addresses_distinct();
            assert forall|i: int, t: int|
                before_stacks.len() <= i < self.spec_stacks().len() && 0 <= t < before_stacks.len() implies #[trigger] old(self).stack_addresses(t)
                != #[trigger] self.stack_addresses(i) by {
                let f = stack_frames(before_stacks, t);
                let g = stack_frames(self.spec_stacks(), i);
                assert(f != g);
                lemma_stack_frames_elems(before_stacks, t, old(self).spec_frames().len() as int);
                lemma_stack_frames_elems(self.spec_stacks(), i, self.spec_frames().len() as int);
                assert(before_stacks == old(self).spec_stacks());
                assert(old(self).stack_addresses(t).len() == f.len());
                assert(self.stack_addresses(i).len() == g.len());
                if old(self).stack_addresses(t) == self.stack_addresses(i) {
                    assert(f.len() == g.len());
                    assert forall|k: int| 0 <= k < f.len() implies f[k] == g[k] by {
                        assert(old(self).stack_addresses(t)[k] == self.stack_addresses(i)[k]);
                        assert(old(self).spec_frames()[f[k] as int] == self.spec_frames()[f[k] as int]);
                    }
                    assert(f =~= g);
                }
            }
        }
        r
    }

    fn frame_index_for_address(&mut self, address: u64) -> (r: usize)
        requires
            old(self).wf(),
        ensures
            final(self).wf(),
            final(self).same_identity(old(self)),
            final(self).spec_name() == old(self).spec_name(),
            final(self).spec_end_time() == old(self).spec_end_time(),
            final(self).spec_samples() == old(self).spec_samples(),
            final(self).spec_stacks() == old(self).spec_stacks(),
            old(self).spec_frames().is_prefix_of(final(self).spec_frames()),
            old(self).spec_strings().is_prefix_of(final(self).spec_strings()),
            r < final(self).spec_frames().len(),
            final(self).spec_frames()[r as int].0 == address,
    {
        let r = self.frame_table.index_for_frame(&mut self.string_table, address);
        proof {
            assert forall|i: int|
                0 <= i < self.stack_table@.len() implies #[trigger] self.stack_table@[i].1 < self.frame_table@.len() by {
                assert(old(self).stack_table@[i].1 < old(self).frame_table@.len());
            }
        }
        r
    }

    pub fn pid(&self) -> (pid: u32)
        ensures
            pid == self.spec_pid(),
    {
        self.pid
    }

    pub fn end_time(&self) -> (t: Option<Instant>)
        ensures
            t == self.spec_end_time(),
    {
        self.end_time
    }

    pub fn is_main(&self) -> (b: bool)
        ensures
            b == self.spec_is_main(),
    {
        self.is_main
    }

    pub fn is_libdispatch_thread(&self) -> (b: bool)
        ensures
            b == self.spec_is_libdispatch_thread(),
    {
        self.is_libdispatch_thread
    }

    pub fn stack_table(&self) -> (t: &StackTable)
        ensures
            t@ == self.spec_stacks(),
    {
        &self.stack_table
    }

    pub fn frame_table(&self) -> (t: &FrameTable)
        ensures
            t@ == self.spec_frames(),
    {
        &self.frame_table
    }

    pub fn string_table(&self) -> (t: &StringTable)
        ensures
            t@ == self.spec_strings(),
    {
        &self.string_table
    }

    pub fn samples(&self) -> (s: &Vec<Sample>)
        ensures
            s@ == self.spec_samples(),
    {
        &self.samples.0
    }
}


// ---------------------------------------------------------------------------
// Libraries and processes
// ---------------------------------------------------------------------------

/// A library loaded in the profiled process.
pub struct Lib {
    pub name: String,
    pub path: String,
    pub arch: &'static str,
    pub breakpad_id: String,
    pub start_address: u64,
    pub end_address: u64,
}

/// Library `x` comes before library `y` in a profile: it starts lower, or
/// at the same address and was added first.
pub open spec fn lib_before(libs: Seq<Lib>, x: int, y: int) -> bool {
    ||| libs[x].start_address < libs[y].start_address
    ||| (libs[x].start_address == libs[y].start_address && x < y)
}

/// `order` lists each of the first `n` libraries once, each before the next.
pub open spec fn orders_first(libs: Seq<Lib>, n: int, order: Seq<usize>) -> bool {
    &&& order.len() == n
    &&& forall|k: int| 0 <= k < n ==> #[trigger] order[k] < n
    &&& forall|k: int, l: int|
        0 <= k < l < n ==> #[trigger] lib_before(libs, order[k] as int, order[l] as int)
}

/// `order` lists every library once, by start address, libraries with the
/// same start address in the order they were added: the order of the
/// profile's library list.
pub open spec fn is_address_order(libs: Seq<Lib>, order: Seq<usize>) -> bool {
    orders_first(libs, libs.len() as int, order)
}

/// The positions of `libs` by start address, those with the same start
/// address in their own order: how a profile lists its libraries.
pub fn libs_in_address_order(libs: &Vec<Lib>) -> (order: Vec<usize>)
    ensures
        is_address_order(libs@, order@),
        forall|k: int, l: int| 0 <= k < l < order@.len() ==> order@[k] != order@[l],
{
    let mut order: Vec<usize> = Vec::new();
    let mut i: usize = 0;
    while i < libs.len()
        invariant
            i <= libs@.len(),
            orders_first(libs@, i as int, order@),
        decreases libs@.len() - i,
    {
        let key = libs[i].start_address;
        let mut p: usize = 0;
        while p < order.len() && libs[order[p]].start_address <= key
            invariant
                i < libs@.len(),
                p <= order@.len(),
                orders_first(libs@, i as int, order@),
                forall|k: int| 0 <= k < p ==> libs@[#[trigger] order@[k] as int].start_address <= key,
            decreases order@.len() - p,
        {
            p = p + 1;
        }
        let ghost before = order@;
        proof {
            if p < before.len() {
                assert(libs@[before[p as int] as int].start_address > key);
                assert forall|q: int| p <= q < before.len() implies
                    libs@[#[trigger] before[q] as int].start_address > key by {
                    if q > p {
                        assert(lib_before(libs@, before[p as int] as int, before[q] as int));
                    }
                }
            }
        }
        order.insert(p, i);
        proof {
            before.insert_ensures(p as int, i);
            assert forall|k: int| 0 <= k < i + 1 implies #[trigger] order@[k] < i + 1 by {
                if k < p {
                    assert(order@[k] == before[k]);
                } else if k > p {
                    assert(order@[k] == before[k - 1]);
                }
            }
            assert forall|k: int, l: int| 0 <= k < l < i + 1 implies
                #[trigger] lib_before(libs@, order@[k] as int, order@[l] as int) by {
                if l < p {
                    assert(lib_before(libs@, before[k] as int, before[l] as int));
                } else if l == p {
                    assert(order@[k] == before[k]);
                    assert(before[k] < i);
                } else if k < p {
                    assert(order@[l] == before[l - 1]);
                    assert(lib_before(libs@, before[k] as int, before[l - 1] as int));
                } else if k == p {
                    assert(order@[l] == before[l - 1]);
                    assert(libs@[before[l - 1] as int].start_address > key);
                } else {
                    assert(order@[k] == before[k - 1]);
                    assert(order@[l] == before[l - 1]);
                    assert(lib_before(libs@, before[k - 1] as int, before[l - 1] as int));
                }
            }
        }
        i = i + 1;
    }
    proof {
        assert forall|k: int, l: int| 0 <= k < l < order@.len() implies order@[k] != order@[l] by {
            assert(lib_before(libs@, order@[k] as int, order@[l] as int));
        }
    }
    order
}

/// Collects everything recorded about one process.
pub struct ProfileBuilder {
    pid: u32,
    interval: Duration,
    libs: Vec<Lib>,
    threads: HashMap<u32, ThreadBuilder>,
    start_time: Instant,
    end_time: Option<Instant>,
    command_name: String,
    subprocesses: Vec<ProfileBuilder>,
}

impl ProfileBuilder {
    pub closed spec fn spec_pid(&self) -> u32 { self.pid }
    pub closed spec fn spec_interval(&self) -> Duration { self.interval }
    pub closed spec fn spec_libs(&self) -> Seq<Lib> { self.libs@ }
    pub closed spec fn spec_threads(&self) -> Map<u32, ThreadBuilder> { self.threads@ }
    pub closed spec fn spec_start_time(&self) -> Instant { self.start_time }
    pub closed spec fn spec_end_time(&self) -> Option<Instant> { self.end_time }
    pub closed spec fn spec_command_name(&self) -> Seq<char> { self.command_name@ }
    pub closed spec fn spec_subprocesses(&self) -> Seq<ProfileBuilder> { self.subprocesses@ }

    /// Everything but the libraries, threads, subprocesses and end time is as in `other`.
    pub open spec fn same_identity(&self, other: &Self) -> bool {
        &&& self.spec_pid() == other.spec_pid()
        &&& self.spec_interval() == other.spec_interval()
        &&& self.spec_start_time() == other.spec_start_time()
        &&& self.spec_command_name() == other.spec_command_name()
    }

    pub fn new(start_time: Instant, command_name: &str, pid: u32, interval: Duration) -> (p: Self)
        ensures
            p.spec_pid() == pid,
            p.spec_interval() == interval,
            p.spec_start_time() == start_time,
            p.spec_command_name() == command_name@,
            p.spec_end_time() is None,
            p.spec_libs().len() == 0,
            p.spec_threads() == Map::<u32, ThreadBuilder>::empty(),
            p.spec_subprocesses().len() == 0,
    {
        ProfileBuilder {
            pid,
            interval,
            threads: HashMap::new(),
            libs: Vec::new(),
            start_time,
            end_time: None,
            command_name: command_name.to_owned(),
            subprocesses: Vec::new(),
        }
    }

    pub fn set_end_time(&mut self, end_time: Instant)
        ensures
            final(self).spec_end_time() == Some(end_time),
            final(self).same_identity(old(self)),
            final(self).spec_libs() == old(self).spec_libs(),
            final(self).spec_threads() == old(self).spec_threads(),
            final(self).spec_subprocesses() == old(self).spec_subprocesses(),
    {
        self.end_time = Some(end_time);
    }

    /// Records a library that covers `address_range`; its breakpad ID is built
    /// from the bytes of `uuid`.
    pub fn add_lib(&mut self, name: &str, path: &str, uuid: &Uuid, arch: &'static str, address_range: &std::ops::Range<u64>)
        ensures
            final(self).same_identity(old(self)),
            final(self).spec_end_time() == old(self).spec_end_time(),
            final(self).spec_threads() == old(self).spec_threads(),
            final(self).spec_subprocesses() == old(self).spec_subprocesses(),
            final(self).spec_libs().len() == old(self).spec_libs().len() + 1,
            final(self).spec_libs().drop_last() == old(self).spec_libs(),
            ({
                let lib = final(self).spec_libs().last();
                &&& lib.name@ == name@
                &&& lib.path@ == path@
                &&& lib.arch == arch
                &&& lib.start_address == address_range.start
                &&& lib.end_address == address_range.end
                &&& lib.breakpad_id@ == breakpad_id_of_uuid_bytes(uuid_bytes_of(*uuid))
            }),
    {
        let bytes = uuid_bytes(uuid);
        let breakpad_id = breakpad_id_from_uuid_bytes(&bytes);
        self.libs.push(Lib {
            name: name.to_owned(),
            path: path.to_owned(),
            arch,
            breakpad_id,
            start_address: address_range.start,
            end_address: address_range.end,
        });
        assert(self.spec_libs().drop_last() =~= old(self).spec_libs());
    }

    /// Adds a thread, replacing any earlier thread with the same thread index.
    pub fn add_thread(&mut self, thread_builder: ThreadBuilder)
        ensures
            final(self).same_identity(old(self)),
            final(self).spec_end_time() == old(self).spec_end_time(),
            final(self).spec_libs() == old(self).spec_libs(),
            final(self).spec_subprocesses() == old(self).spec_subprocesses(),
            final(self).spec_threads() == old(self).spec_threads().insert(thread_builder.spec_tid(), thread_builder),
    {
        self.threads.insert(thread_builder.index, thread_builder);
    }

    pub fn add_subprocess(&mut self, profile_builder: ProfileBuilder)
        ensures
            final(self).same_identity(old(self)),
            final(self).spec_end_time() == old(self).spec_end_time(),
            final(self).spec_libs() == old(self).spec_libs(),
            final(self).spec_threads() == old(self).spec_threads(),
            final(self).spec_subprocesses() == old(self).spec_subprocesses().push(profile_builder),
    {
        self.subprocesses.push(profile_builder);
    }

    pub fn pid(&self) -> (pid: u32)
        ensures
            pid == self.spec_pid(),
    {
        self.pid
    }

    pub fn interval(&self) -> (d: Duration)
        ensures
            d == self.spec_interval(),
    {
        self.interval
    }

    pub fn start_time(&self) -> (t: Instant)
        ensures
            t == self.spec_start_time(),
    {
        self.start_time
    }

    pub fn end_time(&self) -> (t: Option<Instant>)
        ensures
            t == self.spec_end_time(),
    {
        self.end_time
    }

    pub fn command_name(&self) -> (n: &str)
        ensures
            n@ == self.spec_command_name(),
    {
        self.command_name.as_str()
    }

    pub fn libs(&self) -> (l: &Vec<Lib>)
        ensures
            l@ == self.spec_libs(),
    {
        &self.libs
    }

    pub fn threads(&self) -> (t: &HashMap<u32, ThreadBuilder>)
        ensures
            t@ == self.spec_threads(),
    {
        &self.threads
    }

    pub fn subprocesses(&self) -> (s: &Vec<ProfileBuilder>)
        ensures
            s@ == self.spec_subprocesses(),
    {
        &self.subprocesses
    }
}

} // verus!
