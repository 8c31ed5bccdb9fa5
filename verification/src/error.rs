//! The errors of symbol lookup. Where an error carries the error of another
//! library, it is held here as that error's message.
use crate::text::string_push_str;
use vstd::prelude::*;

verus! {

/// What can go wrong while looking up symbols.
#[derive(Debug)]
pub enum GetSymbolsError {
    UnmatchedBreakpadId(String, String),
    /// The debug IDs that were found, and the messages of the errors met.
    NoMatchMultiArch(Vec<String>, Vec<String>),
    /// The messages of the errors met.
    NoLuckMacOsSystemLibrary(Vec<String>),
    /// What was being read, and the message of the PDB error.
    PDBError(&'static str, String),
    InvalidInputError(&'static str),
    /// The file kind, as its debug text, and the message of the parse error.
    ObjectParseError(String, String),
    DyldCacheParseError(String),
    NoMatchingDyldCacheImagePath(String),
    MachOHeaderParseError(String),
    HelperErrorDuringGetCandidatePathsForBinaryOrPdb(String, String, String),
    HelperErrorDuringGetCandidatePathsForPdb(String, String, String),
    HelperErrorDuringOpenFile(String, String),
    HelperErrorDuringFileReading(String, String),
    NoCandidatePathForBinary(String, String),
    NoDebugInfoInPeBinary(String),
    PdbPathDidntEndWithNul(String),
    ArchiveParseError(String, String),
    ParseRequestErrorSerde(String),
    ParseRequestErrorContents(&'static str),
    PdbTypeFormatterError(String),
}

/// The items of `parts` with `sep` between each two of them.
pub open spec fn joined(parts: Seq<String>, sep: Seq<char>) -> Seq<char>
    decreases parts.len(),
{
    if parts.len() == 0 {
        Seq::empty()
    } else if parts.len() == 1 {
        parts[0]@
    } else {
        joined(parts.drop_last(), sep) + sep + parts.last()@
    }
}

impl GetSymbolsError {
    /// The name of the variant.
    pub open spec fn spec_name(&self) -> &'static str {
        match self {
            GetSymbolsError::UnmatchedBreakpadId(..) => "UnmatchedBreakpadId",
            GetSymbolsError::NoMatchMultiArch(..) => "NoMatchMultiArch",
            GetSymbolsError::NoLuckMacOsSystemLibrary(..) => "NoLuckMacOsSystemLibrary",
            GetSymbolsError::PDBError(..) => "PDBError",
            GetSymbolsError::InvalidInputError(..) => "InvalidInputError",
            GetSymbolsError::DyldCacheParseError(..) => "DyldCacheParseError",
            GetSymbolsError::NoMatchingDyldCacheImagePath(..) => "NoMatchingDyldCacheImagePath",
            GetSymbolsError::ObjectParseError(..) => "ObjectParseError",
            GetSymbolsError::MachOHeaderParseError(..) => "MachOHeaderParseError",
            GetSymbolsError::HelperErrorDuringGetCandidatePathsForBinaryOrPdb(..) => {
                "HelperErrorDuringGetCandidatePathsForBinaryOrPdb"
            },
            GetSymbolsError::HelperErrorDuringGetCandidatePathsForPdb(..) => {
                "HelperErrorDuringGetCandidatePathsForPdb"
            },
            GetSymbolsError::HelperErrorDuringOpenFile(..) => "HelperErrorDuringOpenFile",
            GetSymbolsError::HelperErrorDuringFileReading(..) => "HelperErrorDuringFileReading",
            GetSymbolsError::NoCandidatePathForBinary(..) => "NoCandidatePathForBinary",
            GetSymbolsError::NoDebugInfoInPeBinary(..) => "NoDebugInfoInPeBinary",
            GetSymbolsError::PdbPathDidntEndWithNul(..) => "PdbPathDidntEndWithNul",
            GetSymbolsError::ArchiveParseError(..) => "ArchiveParseError",
            GetSymbolsError::ParseRequestErrorSerde(..) => "ParseRequestErrorSerde",
            GetSymbolsError::ParseRequestErrorContents(..) => "ParseRequestErrorContents",
            GetSymbolsError::PdbTypeFormatterError(..) => "PdbTypeFormatterError",
        }
    }

    /// The name of the variant, as the error reports it.
    pub fn enum_as_string(&self) -> (s: &'static str)
        ensures
            s == self.spec_name(),
    {
        match self {
            GetSymbolsError::UnmatchedBreakpadId(..) => "UnmatchedBreakpadId",
            GetSymbolsError::NoMatchMultiArch(..) => "NoMatchMultiArch",
            GetSymbolsError::NoLuckMacOsSystemLibrary(..) => "NoLuckMacOsSystemLibrary",
            GetSymbolsError::PDBError(..) => "PDBError",
            GetSymbolsError::InvalidInputError(..) => "InvalidInputError",
            GetSymbolsError::DyldCacheParseError(..) => "DyldCacheParseError",
            GetSymbolsError::NoMatchingDyldCacheImagePath(..) => "NoMatchingDyldCacheImagePath",
            GetSymbolsError::ObjectParseError(..) => "ObjectParseError",
            GetSymbolsError::MachOHeaderParseError(..) => "MachOHeaderParseError",
            GetSymbolsError::HelperErrorDuringGetCandidatePathsForBinaryOrPdb(..) => {
                "HelperErrorDuringGetCandidatePathsForBinaryOrPdb"
            },
            GetSymbolsError::HelperErrorDuringGetCandidatePathsForPdb(..) => {
                "HelperErrorDuringGetCandidatePathsForPdb"
            },
            GetSymbolsError::HelperErrorDuringOpenFile(..) => "HelperErrorDuringOpenFile",
            GetSymbolsError::HelperErrorDuringFileReading(..) => "HelperErrorDuringFileReading",
            GetSymbolsError::NoCandidatePathForBinary(..) => "NoCandidatePathForBinary",
            GetSymbolsError::NoDebugInfoInPeBinary(..) => "NoDebugInfoInPeBinary",
            GetSymbolsError::PdbPathDidntEndWithNul(..) => "PdbPathDidntEndWithNul",
            GetSymbolsError::ArchiveParseError(..) => "ArchiveParseError",
            GetSymbolsError::ParseRequestErrorSerde(..) => "ParseRequestErrorSerde",
            GetSymbolsError::ParseRequestErrorContents(..) => "ParseRequestErrorContents",
            GetSymbolsError::PdbTypeFormatterError(..) => "PdbTypeFormatterError",
        }
    }

    /// The message of the error.
    pub open spec fn spec_message(&self) -> Seq<char> {
        match self {
            GetSymbolsError::UnmatchedBreakpadId(a, b) => "Unmatched breakpad_id: Expected "@ + a@
                + ", but received "@ + b@,
            GetSymbolsError::NoMatchMultiArch(ids, errs) => "No match in multi-arch binary, available UUIDs: "@
                + joined(ids@, ", "@) + ", errors: "@ + joined(errs@, ", "@),
            GetSymbolsError::NoLuckMacOsSystemLibrary(errs) => "Couldn't get symbols from system library, errors: "@
                + joined(errs@, ", "@),
            GetSymbolsError::PDBError(what, e) => "PDB error: "@ + e@ + " ("@ + what@ + ")"@,
            GetSymbolsError::InvalidInputError(what) => "Invalid input: "@ + what@,
            GetSymbolsError::ObjectParseError(kind, e) => "Object could not parse the file as "@
                + kind@ + ": "@ + e@,
            GetSymbolsError::DyldCacheParseError(e) => "Dyld cache parsing error: "@ + e@,
            GetSymbolsError::NoMatchingDyldCacheImagePath(p) =>
                "The dyld shared cache file did not include an entry for the dylib at "@ + p@,
            GetSymbolsError::MachOHeaderParseError(e) => "MachOHeader parsing error: "@ + e@,
            GetSymbolsError::HelperErrorDuringGetCandidatePathsForBinaryOrPdb(n, id, e) =>
                "get_candidate_paths_for_binary_or_pdb helper callback for "@ + n@ + " "@ + id@
                + " returned error: "@ + e@,
            GetSymbolsError::HelperErrorDuringGetCandidatePathsForPdb(n, id, e) =>
                "get_candidate_paths_for_pdb helper callback for "@ + n@ + " "@ + id@
                + " returned error: "@ + e@,
            GetSymbolsError::HelperErrorDuringOpenFile(p, e) => "open_file helper callback for file "@
                + p@ + " returned error: "@ + e@,
            GetSymbolsError::HelperErrorDuringFileReading(p, e) =>
                "FileContents read_bytes_at for file "@ + p@ + " returned error: "@ + e@,
            GetSymbolsError::NoCandidatePathForBinary(n, id) => "No candidate path for binary, for "@
                + n@ + " "@ + id@,
            GetSymbolsError::NoDebugInfoInPeBinary(p) => "The PE (Windows) binary at path "@ + p@
                + " did not contain information about an associated PDB file"@,
            GetSymbolsError::PdbPathDidntEndWithNul(p) => "In the PE (Windows) binary at path "@ + p@
                + ", the embedded path to the PDB file did not end with a nul byte."@,
            GetSymbolsError::ArchiveParseError(p, e) => "Could not parse archive file at "@ + p@
                + ", ArchiveFile::parse returned error: "@ + e@ + "."@,
            GetSymbolsError::ParseRequestErrorSerde(e) => "Couldn't parse request: "@ + e@,
            GetSymbolsError::ParseRequestErrorContents(what) => "Malformed request JSON: "@ + what@,
            GetSymbolsError::PdbTypeFormatterError(e) => "Error while formatting function from PDB: "@
                + e@,
        }
    }

    /// The message of the error.
    pub fn to_string(&self) -> (m: String)
        ensures
            m@ == self.spec_message(),
    {
        proof {
            reveal_with_fuel(concatenated, 7);
            reveal_with_fuel(joined, 2);
        }
        match self {
            GetSymbolsError::UnmatchedBreakpadId(a, b) => concat_strs(
                vec!["Unmatched breakpad_id: Expected ", a.as_str(), ", but received ", b.as_str()],
            ),
            GetSymbolsError::NoMatchMultiArch(ids, errs) => {
                let ids = join_strings(ids, ", ");
                let errs = join_strings(errs, ", ");
                concat_strs(
                    vec![
                        "No match in multi-arch binary, available UUIDs: ",
                        ids.as_str(),
                        ", errors: ",
                        errs.as_str(),
                    ],
                )
            },
            GetSymbolsError::NoLuckMacOsSystemLibrary(errs) => {
                let errs = join_strings(errs, ", ");
                concat_strs(vec!["Couldn't get symbols from system library, errors: ", errs.as_str()])
            },
            GetSymbolsError::PDBError(what, e) => concat_strs(
                vec!["PDB error: ", e.as_str(), " (", what, ")"],
            ),
            GetSymbolsError::InvalidInputError(what) => concat_strs(vec!["Invalid input: ", what]),
            GetSymbolsError::ObjectParseError(kind, e) => concat_strs(
                vec!["Object could not parse the file as ", kind.as_str(), ": ", e.as_str()],
            ),
            GetSymbolsError::DyldCacheParseError(e) => concat_strs(
                vec!["Dyld cache parsing error: ", e.as_str()],
            ),
            GetSymbolsError::NoMatchingDyldCacheImagePath(p) => concat_strs(
                vec![
                    "The dyld shared cache file did not include an entry for the dylib at ",
                    p.as_str(),
                ],
            ),
            GetSymbolsError::MachOHeaderParseError(e) => concat_strs(
                vec!["MachOHeader parsing error: ", e.as_str()],
            ),
            GetSymbolsError::HelperErrorDuringGetCandidatePathsForBinaryOrPdb(n, id, e) => concat_strs(
                vec![
                    "get_candidate_paths_for_binary_or_pdb helper callback for ",
                    n.as_str(),
                    " ",
                    id.as_str(),
                    " returned error: ",
                    e.as_str(),
                ],
            ),
            GetSymbolsError::HelperErrorDuringGetCandidatePathsForPdb(n, id, e) => concat_strs(
                vec![
                    "get_candidate_paths_for_pdb helper callback for ",
                    n.as_str(),
                    " ",
                    id.as_str(),
                    " returned error: ",
                    e.as_str(),
                ],
            ),
            GetSymbolsError::HelperErrorDuringOpenFile(p, e) => concat_strs(
                vec!["open_file helper callback for file ", p.as_str(), " returned error: ", e.as_str()],
            ),
            GetSymbolsError::HelperErrorDuringFileReading(p, e) => concat_strs(
                vec![
                    "FileContents read_bytes_at for file ",
                    p.as_str(),
                    " returned error: ",
                    e.as_str(),
                ],
            ),
            GetSymbolsError::NoCandidatePathForBinary(n, id) => concat_strs(
                vec!["No candidate path for binary, for ", n.as_str(), " ", id.as_str()],
            ),
            GetSymbolsError::NoDebugInfoInPeBinary(p) => concat_strs(
                vec![
                    "The PE (Windows) binary at path ",
                    p.as_str(),
                    " did not contain information about an associated PDB file",
                ],
            ),
            GetSymbolsError::PdbPathDidntEndWithNul(p) => concat_strs(
                vec![
                    "In the PE (Windows) binary at path ",
                    p.as_str(),
                    ", the embedded path to the PDB file did not end with a nul byte.",
                ],
            ),
            GetSymbolsError::ArchiveParseError(p, e) => concat_strs(
                vec![
                    "Could not parse archive file at ",
                    p.as_str(),
                    ", ArchiveFile::parse returned error: ",
                    e.as_str(),
                    ".",
                ],
            ),
            GetSymbolsError::ParseRequestErrorSerde(e) => concat_strs(
                vec!["Couldn't parse request: ", e.as_str()],
            ),
            GetSymbolsError::ParseRequestErrorContents(what) => concat_strs(
                vec!["Malformed request JSON: ", what],
            ),
            GetSymbolsError::PdbTypeFormatterError(e) => concat_strs(
                vec!["Error while formatting function from PDB: ", e.as_str()],
            ),
        }
    }
}

/// The texts of `parts`, one after the other.
pub open spec fn concatenated(parts: Seq<&str>) -> Seq<char>
    decreases parts.len(),
{
    if parts.len() == 0 {
        Seq::empty()
    } else {
        concatenated(parts.drop_last()) + parts.last()@
    }
}

/// Concatenates the texts of `parts`.
fn concat_strs(parts: Vec<&str>) -> (s: String)
    ensures
        s@ == concatenated(parts@),
{
    let mut s = String::new();
    let mut i: usize = 0;
    while i < parts.len()
        invariant
            i <= parts@.len(),
            s@ == concatenated(parts@.take(i as int)),
        decreases parts@.len() - i,
    {
        assert(parts@.take(i + 1).drop_last() == parts@.take(i as int));
        string_push_str(&mut s, parts[i]);
        i = i + 1;
    }
    assert(parts@.take(i as int) == parts@);
    s
}

/// Joins `parts` with `sep` between each two of them.
pub fn join_strings(parts: &Vec<String>, sep: &str) -> (s: String)
    ensures
        s@ == joined(parts@, sep@),
{
    let mut s = String::new();
    let mut i: usize = 0;
    while i < parts.len()
        invariant
            i <= parts@.len(),
            s@ == joined(parts@.take(i as int), sep@),
        decreases parts@.len() - i,
    {
        assert(parts@.take(i + 1).drop_last() == parts@.take(i as int));
        if i > 0 {
            string_push_str(&mut s, sep);
        }
        string_push_str(&mut s, parts[i].as_str());
        i = i + 1;
    }
    assert(parts@.take(i as int) == parts@);
    s
}

} // verus!
