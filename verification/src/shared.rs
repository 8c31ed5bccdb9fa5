//! Types shared by the symbolication code: file locations and file contents,
//! the queries, and the results that the lookups fill in.
use std::ops::Range;
use std::path::PathBuf;
use vstd::prelude::*;

verus! {

#[verifier::external_type_specification]
#[verifier::external_body]
pub struct ExPathBuf(PathBuf);

/// An error from the consumer's file access, with its message.
pub struct FileAndPathHelperError {
    pub message: String,
}

impl FileAndPathHelperError {
    pub fn new(message: &str) -> (e: Self)
        ensures
            e.message@ == message@,
    {
        FileAndPathHelperError { message: message.to_owned() }
    }
}

pub type FileAndPathHelperResult<T> = Result<T, FileAndPathHelperError>;

/// A future which the consumer's file access hands back.
pub trait OptionallySendFuture: std::future::Future {}

/// Where symbol data may be found.
pub enum CandidatePathInfo {
    SingleFile(FileLocation),
    InDyldCache { dyld_cache_path: PathBuf, dylib_path: String },
}

/// The location of a file: a path on this machine, or a location that only the
/// consumer knows how to open.
pub enum FileLocation {
    Path(PathBuf),
    Custom(String),
}

/// The text that `Path::to_string_lossy` gives of a path.
pub uninterp spec fn path_text(path: PathBuf) -> Seq<char>;

/// `Path::to_string_lossy` followed by `to_string`: the path as text, with
/// invalid UTF-8 replaced, a function of the path alone.
#[verifier::external_body]
fn path_to_string_lossy(path: &PathBuf) -> (s: String)
    ensures
        s@ == path_text(*path),
{
    path.to_string_lossy().to_string()
}

/// Whether `<PathBuf as PartialEq>::eq` finds two paths equal (it compares
/// their components, so different texts may be equal).
pub uninterp spec fn paths_equal(a: PathBuf, b: PathBuf) -> bool;

/// `<PathBuf as PartialEq>::eq`, a function of the two paths alone.
#[verifier::external_body]
fn path_eq(a: &PathBuf, b: &PathBuf) -> (r: bool)
    ensures
        r == paths_equal(*a, *b),
{
    a == b
}

/// Whether two file locations are the same: two paths that compare equal, or
/// two custom locations with the same text.
pub open spec fn same_location(a: FileLocation, b: FileLocation) -> bool {
    match (a, b) {
        (FileLocation::Path(p), FileLocation::Path(q)) => paths_equal(p, q),
        (FileLocation::Custom(x), FileLocation::Custom(y)) => x@ == y@,
        _ => false,
    }
}

impl FileLocation {
    /// Whether this location is the same as `other` (see `same_location`).
    pub fn same_as(&self, other: &FileLocation) -> (r: bool)
        ensures
            r == same_location(*self, *other),
    {
        match (self, other) {
            (FileLocation::Path(p), FileLocation::Path(q)) => path_eq(p, q),
            (FileLocation::Custom(x), FileLocation::Custom(y)) => crate::text::str_eq(x.as_str(), y.as_str()),
            _ => false,
        }
    }

    /// The location as text: a custom location is its string; a path is its
    /// lossy text form.
    pub fn to_string_lossy(&self) -> (s: String)
        ensures
            s@ == match self {
                FileLocation::Path(p) => path_text(*p),
                FileLocation::Custom(c) => c@,
            },
    {
        match self {
            FileLocation::Path(path) => path_to_string_lossy(path),
            FileLocation::Custom(string) => string.clone(),
        }
    }
}

/// Access to the bytes of a file. Consumers of the library implement it.
pub trait FileContents {
    /// The bytes of the file.
    spec fn spec_contents(&self) -> Seq<u8>;

    /// The length of the file in bytes.
    fn len(&self) -> (r: u64)
        ensures
            r == self.spec_contents().len(),
    ;

    /// Whether the file is empty.
    fn is_empty(&self) -> (r: bool)
        ensures
            r == (self.spec_contents().len() == 0),
    {
        self.len() == 0
    }

    /// The `size` bytes at `offset`, or an error.
    fn read_bytes_at(&self, offset: u64, size: u64) -> (r: FileAndPathHelperResult<&[u8]>)
        ensures
            r matches Ok(b) ==> offset + size <= self.spec_contents().len() && b@ == self.spec_contents().subrange(
                offset as int,
                offset + size,
            ),
    ;

    /// The bytes from `range.start` up to the first `delimiter` before
    /// `range.end`, without the delimiter; an error when there is none.
    fn read_bytes_at_until(&self, range: Range<u64>, delimiter: u8) -> (r: FileAndPathHelperResult<&[u8]>)
        ensures
            r matches Ok(b) ==> delimited_at(self.spec_contents(), range.start as int, range.end as int, delimiter, b@),
    ;

    /// Appends the `size` bytes at `offset` to `buffer`.
    fn read_bytes_into(&self, buffer: &mut Vec<u8>, offset: u64, size: usize) -> (r: FileAndPathHelperResult<()>)
        ensures
            r is Ok ==> offset + size <= self.spec_contents().len() && final(buffer)@ == old(buffer)@
                + self.spec_contents().subrange(offset as int, offset + size),
    ;
}

/// `found` is the text at `start` in `contents` up to the first `delimiter`,
/// which lies before `end`.
pub open spec fn delimited_at(contents: Seq<u8>, start: int, end: int, delimiter: u8, found: Seq<u8>) -> bool {
    &&& 0 <= start
    &&& start + found.len() < end <= contents.len()
    &&& found == contents.subrange(start, start + found.len())
    &&& contents[start + found.len()] == delimiter
    &&& !found.contains(delimiter)
}

/// `memchr::memchr`: the index of the first occurrence of `needle` in
/// `haystack`, or `None` when it does not occur.
#[verifier::external_body]
fn memchr(needle: u8, haystack: &[u8]) -> (r: Option<usize>)
    ensures
        match r {
            Some(i) => i < haystack@.len() && haystack@[i as int] == needle && !haystack@.subrange(0, i as int).contains(
                needle,
            ),
            None => !haystack@.contains(needle),
        },
{
    memchr::memchr(needle, haystack)
}

/// The `size` bytes of `data` at `offset`; an error when they are not all inside `data`.
pub fn slice_read_bytes_at(data: &[u8], offset: u64, size: u64) -> (r: FileAndPathHelperResult<&[u8]>)
    ensures
        r is Ok <==> offset + size <= data@.len(),
        r matches Ok(b) ==> b@ == data@.subrange(offset as int, offset + size),
{
    let len = data.len();
    if offset > len as u64 {
        return Err(
            FileAndPathHelperError::new(
                "FileContents::read_bytes_at for &[u8] was called with out-of-range indexes",
            ),
        );
    }
    let start = offset as usize;
    if size > (len - start) as u64 {
        return Err(
            FileAndPathHelperError::new(
                "FileContents::read_bytes_at for &[u8] was called with out-of-range indexes",
            ),
        );
    }
    let end = start + size as usize;
    Ok(&data[start..end])
}

/// The bytes of `data` from `range.start` up to the first `delimiter` before
/// `range.end`, without the delimiter.
pub fn slice_read_bytes_at_until(data: &[u8], range: Range<u64>, delimiter: u8) -> (r: FileAndPathHelperResult<&[u8]>)
    ensures
        r matches Ok(b) ==> delimited_at(data@, range.start as int, range.end as int, delimiter, b@),
        r is Ok <==> (range.start <= range.end && range.end <= data@.len() && data@.subrange(
            range.start as int,
            range.end as int,
        ).contains(delimiter)),
{
    if range.end < range.start {
        return Err(FileAndPathHelperError::new("Invalid range in read_bytes_at_until"));
    }
    let slice = slice_read_bytes_at(data, range.start, range.end - range.start)?;
    match memchr(delimiter, slice) {
        Some(pos) => {
            let found = &slice[0..pos];
            assert(found@ == slice@.subrange(0, pos as int));
            assert(data@.subrange(range.start as int, range.start + pos) == slice@.subrange(0, pos as int));
            assert(data@[range.start + pos] == slice@[pos as int]);
            Ok(found)
        },
        None => Err(FileAndPathHelperError::new("Delimiter not found")),
    }
}

impl FileContents for Vec<u8> {
    open spec fn spec_contents(&self) -> Seq<u8> {
        self@
    }

    fn len(&self) -> (r: u64) {
        self.as_slice().len() as u64
    }

    fn read_bytes_at(&self, offset: u64, size: u64) -> (r: FileAndPathHelperResult<&[u8]>)
        ensures
            r is Ok <==> offset + size <= self@.len(),
    {
        slice_read_bytes_at(self.as_slice(), offset, size)
    }

    fn read_bytes_at_until(&self, range: Range<u64>, delimiter: u8) -> (r: FileAndPathHelperResult<&[u8]>)
        ensures
            r is Ok <==> (range.start <= range.end && range.end <= self@.len() && self@.subrange(
                range.start as int,
                range.end as int,
            ).contains(delimiter)),
    {
        slice_read_bytes_at_until(self.as_slice(), range, delimiter)
    }

    fn read_bytes_into(&self, buffer: &mut Vec<u8>, offset: u64, size: usize) -> (r: FileAndPathHelperResult<()>)
        ensures
            r is Ok <==> offset + size <= self@.len(),
            r is Err ==> final(buffer)@ == old(buffer)@,
    {
        let bytes = slice_read_bytes_at(self.as_slice(), offset, size as u64)?;
        buffer.extend_from_slice(bytes);
        assert(buffer@ =~= old(buffer)@ + self@.subrange(offset as int, offset + size));
        Ok(())
    }
}

/// Reads bytes of a file from some source. Consumers of the library implement it.
pub trait FileByteSource {
    /// Appends the `size` bytes at `offset` to `buffer`.
    fn read_bytes_into(&self, buffer: &mut Vec<u8>, offset: u64, size: u64) -> FileAndPathHelperResult<()>;
}

/// Wraps a `FileContents` and remembers its length.
pub struct FileContentsWrapper<T: FileContents> {
    file_contents: T,
    len: u64,
}

impl<T: FileContents> FileContentsWrapper<T> {
    pub closed spec fn wf(&self) -> bool {
        self.len == self.file_contents.spec_contents().len()
    }

    /// The bytes of the wrapped file.
    pub closed spec fn spec_contents(&self) -> Seq<u8> {
        self.file_contents.spec_contents()
    }

    pub fn new(file_contents: T) -> (w: Self)
        ensures
            w.wf(),
            w.spec_contents() == file_contents.spec_contents(),
    {
        let len = file_contents.len();
        FileContentsWrapper { file_contents, len }
    }

    pub fn len(&self) -> (r: u64)
        requires
            self.wf(),
        ensures
            r == self.spec_contents().len(),
    {
        self.len
    }

    pub fn read_bytes_at(&self, offset: u64, size: u64) -> (r: FileAndPathHelperResult<&[u8]>)
        ensures
            r matches Ok(b) ==> offset + size <= self.spec_contents().len() && b@ == self.spec_contents().subrange(
                offset as int,
                offset + size,
            ),
    {
        self.file_contents.read_bytes_at(offset, size)
    }

    pub fn read_bytes_at_until(&self, range: Range<u64>, delimiter: u8) -> (r: FileAndPathHelperResult<&[u8]>)
        ensures
            r matches Ok(b) ==> delimited_at(self.spec_contents(), range.start as int, range.end as int, delimiter, b@),
    {
        self.file_contents.read_bytes_at_until(range, delimiter)
    }

    pub fn read_bytes_into(&self, buffer: &mut Vec<u8>, offset: u64, size: usize) -> (r: FileAndPathHelperResult<()>)
        ensures
            r is Ok ==> offset + size <= self.spec_contents().len() && final(buffer)@ == old(buffer)@
                + self.spec_contents().subrange(offset as int, offset + size),
    {
        self.file_contents.read_bytes_into(buffer, offset, size)
    }

    /// All bytes of the file.
    pub fn read_entire_data(&self) -> (r: FileAndPathHelperResult<&[u8]>)
        requires
            self.wf(),
        ensures
            r matches Ok(b) ==> b@ == self.spec_contents(),
    {
        let r = self.read_bytes_at(0, self.len);
        proof {
            if let Ok(b) = r {
                assert(self.spec_contents().subrange(0, self.len as int) == self.spec_contents());
            }
        }
        r
    }

    /// A view of the whole file.
    pub fn full_range(&self) -> (r: RangeReadRef<'_, T>)
        requires
            self.wf(),
        ensures
            r.spec_range_start() == 0,
            r.spec_range_size() == self.spec_contents().len(),
            r.spec_original_contents() == self.spec_contents(),
    {
        RangeReadRef::new(&self.file_contents, 0, self.len)
    }

    /// A view of `size` bytes at `start`.
    pub fn range(&self, start: u64, size: u64) -> (r: RangeReadRef<'_, T>)
        ensures
            r.spec_range_start() == start,
            r.spec_range_size() == size,
            r.spec_original_contents() == self.spec_contents(),
    {
        RangeReadRef::new(&self.file_contents, start, size)
    }
}

/// A window into a file: reads are shifted by the window's start.
pub struct RangeReadRef<'data, T: FileContents> {
    original_readref: &'data T,
    range_start: u64,
    range_size: u64,
}

impl<'data, T: FileContents> RangeReadRef<'data, T> {
    pub closed spec fn spec_range_start(&self) -> u64 {
        self.range_start
    }

    pub closed spec fn spec_range_size(&self) -> u64 {
        self.range_size
    }

    pub closed spec fn spec_original_contents(&self) -> Seq<u8> {
        self.original_readref.spec_contents()
    }

    pub fn new(original_readref: &'data T, range_start: u64, range_size: u64) -> (r: Self)
        ensures
            r.spec_range_start() == range_start,
            r.spec_range_size() == range_size,
            r.spec_original_contents() == original_readref.spec_contents(),
    {
        RangeReadRef { original_readref, range_start, range_size }
    }

    /// A window of `size` bytes at `start` within this window.
    pub fn make_subrange(&self, start: u64, size: u64) -> (r: Self)
        requires
            self.spec_range_start() + start <= u64::MAX,
        ensures
            r.spec_range_start() == self.spec_range_start() + start,
            r.spec_range_size() == size,
            r.spec_original_contents() == self.spec_original_contents(),
    {
        Self::new(self.original_readref, self.range_start + start, size)
    }

    pub fn original_readref(&self) -> (r: &'data T)
        ensures
            r.spec_contents() == self.spec_original_contents(),
    {
        self.original_readref
    }

    pub fn range_start(&self) -> (r: u64)
        ensures
            r == self.spec_range_start(),
    {
        self.range_start
    }

    pub fn range_size(&self) -> (r: u64)
        ensures
            r == self.spec_range_size(),
    {
        self.range_size
    }

    /// The length of the window.
    pub fn len(&self) -> (r: Result<u64, ()>)
        ensures
            r == Ok::<u64, ()>(self.spec_range_size()),
    {
        Ok(self.range_size)
    }

    /// The `size` bytes at `offset` in the window; an error when the shifted
    /// offset overflows or the file cannot provide them.
    pub fn read_bytes_at(&self, offset: u64, size: u64) -> (r: Result<&'data [u8], ()>)
        ensures
            self.spec_range_start() + offset > u64::MAX ==> r is Err,
            r matches Ok(b) ==> b@ == self.spec_original_contents().subrange(
                self.spec_range_start() + offset,
                self.spec_range_start() + offset + size,
            ),
    {
        let shifted_offset = match self.range_start.checked_add(offset) {
            Some(o) => o,
            None => return Err(()),
        };
        match self.original_readref.read_bytes_at(shifted_offset, size) {
            Ok(b) => Ok(b),
            Err(_) => Err(()),
        }
    }

    /// The bytes from the shifted `range.start` up to the first `delimiter`
    /// before the shifted `range.end`.
    pub fn read_bytes_at_until(&self, range: Range<u64>, delimiter: u8) -> (r: Result<&'data [u8], ()>)
        ensures
            range.end < range.start ==> r is Err,
            self.spec_range_start() + range.end > u64::MAX ==> r is Err,
            r matches Ok(b) ==> delimited_at(
                self.spec_original_contents(),
                self.spec_range_start() + range.start,
                self.spec_range_start() + range.end,
                delimiter,
                b@,
            ),
    {
        if range.end < range.start {
            return Err(());
        }
        let shifted_start = match self.range_start.checked_add(range.start) {
            Some(s) => s,
            None => return Err(()),
        };
        let shifted_end = match self.range_start.checked_add(range.end) {
            Some(e) => e,
            None => return Err(()),
        };
        match self.original_readref.read_bytes_at_until(shifted_start..shifted_end, delimiter) {
            Ok(b) => Ok(b),
            Err(_) => Err(()),
        }
    }
}

/// One frame of an inline stack.
pub struct InlineStackFrame {
    pub function: Option<String>,
    pub file_path: Option<String>,
    pub line_number: Option<u32>,
}

/// The debug information for an address: its inline stack, innermost first;
/// the last frame is the outer function.
pub struct AddressDebugInfo {
    pub frames: Vec<InlineStackFrame>,
}

/// What a query asks for.
pub enum SymbolicationResultKind<'a> {
    AllSymbols,
    SymbolsForAddresses { addresses: &'a [u32], with_debug_info: bool },
}

impl<'a> SymbolicationResultKind<'a> {
    pub fn wants_debug_info_for_addresses(&self) -> (r: bool)
        ensures
            r == (match *self {
                SymbolicationResultKind::AllSymbols => false,
                SymbolicationResultKind::SymbolsForAddresses { with_debug_info, .. } => with_debug_info,
            }),
    {
        match self {
            Self::AllSymbols => false,
            Self::SymbolsForAddresses { with_debug_info, .. } => *with_debug_info,
        }
    }
}

/// The parameters of a symbolication.
pub struct SymbolicationQuery<'a> {
    /// The debug name of the binary whose symbols need to be looked up.
    pub debug_name: &'a str,
    /// The breakpad ID of the binary whose symbols need to be looked up.
    pub breakpad_id: &'a str,
    /// The kind of data which this query wants returned.
    pub result_kind: SymbolicationResultKind<'a>,
}

/// What a symbolication fills in: either a full symbol table, or per-address
/// data for a set of looked-up addresses.
pub trait SymbolicationResult: Sized {
    /// Whether this kind of result is built from a full symbol map.
    spec fn accepts_full_map() -> bool;

    /// Whether this kind of result can be built for these addresses.
    spec fn accepts_addresses(addresses: Seq<u32>) -> bool;

    /// Whether the result takes data for `address`.
    spec fn expects(&self, address: u32) -> bool;

    /// Whether the result holds a symbol for `address`.
    spec fn has_symbol(&self, address: u32) -> bool;

    /// Whether results of this kind keep the symbols and the symbol count
    /// they are given.
    spec fn keeps_symbols() -> bool;

    /// The symbol kept for `address`, if any: its address and its name.
    spec fn symbol_of(&self, address: u32) -> Option<(u32, Seq<char>)>;

    /// The total number of symbols kept.
    spec fn symbol_count_of(&self) -> int;

    /// The result for a full symbol map of (address, name) entries.
    fn from_full_map(map: Vec<(u32, String)>) -> (r: Self)
        requires
            Self::accepts_full_map(),
    ;

    /// An empty result for the given addresses.
    fn for_addresses(addresses: &[u32]) -> (r: Self)
        requires
            Self::accepts_addresses(addresses@),
        ensures
            forall|a: u32| addresses@.contains(a) ==> #[trigger] r.expects(a),
            Self::keeps_symbols() ==> forall|a: u32| #[trigger] r.symbol_of(a) is None,
    ;

    /// Supplies the symbol for `address`: the closest symbol at or below it.
    fn add_address_symbol(&mut self, address: u32, symbol_address: u32, symbol_name: &str)
        requires
            old(self).expects(address),
        ensures
            final(self).has_symbol(address),
            forall|a: u32| #[trigger] old(self).expects(a) ==> final(self).expects(a),
            forall|a: u32| #[trigger] old(self).has_symbol(a) ==> final(self).has_symbol(a),
            Self::keeps_symbols() ==> final(self).symbol_of(address) == Some((symbol_address, symbol_name@)),
            Self::keeps_symbols() ==> forall|a: u32|
                a != address ==> #[trigger] final(self).symbol_of(a) == old(self).symbol_of(a),
            Self::keeps_symbols() ==> final(self).symbol_count_of() == old(self).symbol_count_of(),
    ;

    /// Supplies the debug info for `address`.
    fn add_address_debug_info(&mut self, address: u32, info: AddressDebugInfo)
        requires
            old(self).expects(address),
            old(self).has_symbol(address),
        ensures
            forall|a: u32| #[trigger] old(self).expects(a) ==> final(self).expects(a),
            forall|a: u32| #[trigger] old(self).has_symbol(a) ==> final(self).has_symbol(a),
    ;

    /// Supplies the total number of symbols in the binary.
    fn set_total_symbol_count(&mut self, total_symbol_count: u32)
        ensures
            forall|a: u32| #[trigger] old(self).expects(a) ==> final(self).expects(a),
            forall|a: u32| #[trigger] old(self).has_symbol(a) ==> final(self).has_symbol(a),
            Self::keeps_symbols() ==> forall|a: u32| #[trigger] final(self).symbol_of(a) == old(self).symbol_of(a),
            Self::keeps_symbols() ==> final(self).symbol_count_of() == total_symbol_count,
    ;
}

} // verus!
