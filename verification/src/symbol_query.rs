//! The decisions of looking up the symbols of a library: which reader a file
//! goes to, and what the search over the candidate paths answers.
use crate::error::GetSymbolsError;
use vstd::prelude::*;

verus! {

/// The kind of an object file, as far as choosing its reader goes.
#[derive(Clone, Copy, Debug, PartialEq, Eq, Structural)]
pub enum FileKind {
    Elf32,
    Elf64,
    MachO32,
    MachO64,
    MachOFat32,
    MachOFat64,
    Pe32,
    Pe64,
    /// Archives, COFF and Wasm files, and any other kind.
    Other,
}

/// The reader that a file goes to.
#[derive(Clone, Copy, Debug, PartialEq, Eq, Structural)]
pub enum FileReader {
    Pdb,
    Elf,
    /// A fat Mach-O file whose architectures are listed with 32-bit offsets.
    MachOFat32,
    /// A fat Mach-O file whose architectures are listed with 64-bit offsets.
    MachOFat64,
    MachO,
    Pe,
}

/// The reader for a file: PDB files first, then by the kind of object file.
pub open spec fn spec_reader_for_file(is_pdb: bool, kind: Option<FileKind>) -> Option<FileReader> {
    if is_pdb {
        Some(FileReader::Pdb)
    } else {
        match kind {
            Some(FileKind::Elf32) | Some(FileKind::Elf64) => Some(FileReader::Elf),
            Some(FileKind::MachOFat32) => Some(FileReader::MachOFat32),
            Some(FileKind::MachOFat64) => Some(FileReader::MachOFat64),
            Some(FileKind::MachO32) | Some(FileKind::MachO64) => Some(FileReader::MachO),
            Some(FileKind::Pe32) | Some(FileKind::Pe64) => Some(FileReader::Pe),
            _ => None,
        }
    }
}

/// Picks the reader for a file that opened as a PDB (`is_pdb`) or whose
/// object file kind was recognized (`kind`). A file of another kind, or of no
/// known format, is an `InvalidInputError` that says which.
pub fn reader_for_file(is_pdb: bool, kind: Option<FileKind>) -> (r: Result<FileReader, GetSymbolsError>)
    ensures
        match r {
            Ok(reader) => spec_reader_for_file(is_pdb, kind) == Some(reader),
            Err(e) => spec_reader_for_file(is_pdb, kind) is None && (e matches GetSymbolsError::InvalidInputError(m)
                && m@ == (if kind is Some {
                "Input was Archive, Coff or Wasm format, which are unsupported for now"@
            } else {
                "The file does not have a known format; PDB::open was not able to parse it and object::FileKind::parse was not able to detect the format."@
            })),
        },
{
    if is_pdb {
        return Ok(FileReader::Pdb);
    }
    match kind {
        Some(kind) => match kind {
            FileKind::Elf32 | FileKind::Elf64 => Ok(FileReader::Elf),
            FileKind::MachOFat32 => Ok(FileReader::MachOFat32),
            FileKind::MachOFat64 => Ok(FileReader::MachOFat64),
            FileKind::MachO32 | FileKind::MachO64 => Ok(FileReader::MachO),
            FileKind::Pe32 | FileKind::Pe64 => Ok(FileReader::Pe),
            FileKind::Other => Err(
                GetSymbolsError::InvalidInputError(
                    "Input was Archive, Coff or Wasm format, which are unsupported for now",
                ),
            ),
        },
        None => Err(
            GetSymbolsError::InvalidInputError(
                "The file does not have a known format; PDB::open was not able to parse it and object::FileKind::parse was not able to detect the format.",
            ),
        ),
    }
}

/// The search over the candidate paths of a library: the candidates are tried
/// in turn until one gives symbols; the error of the last one tried is kept.
pub struct CandidateSearch {
    pub last_err: Option<GetSymbolsError>,
}

impl CandidateSearch {
    /// A search that has not tried any candidate yet.
    pub fn new() -> (s: Self)
        ensures
            s.last_err is None,
    {
        CandidateSearch { last_err: None }
    }

    /// Takes the outcome of one candidate: its symbols end the search, its
    /// error is kept and the search goes on.
    pub fn record_result<R>(&mut self, result: Result<R, GetSymbolsError>) -> (r: Option<R>)
        ensures
            match result {
                Ok(v) => r == Some(v) && final(self).last_err == old(self).last_err,
                Err(e) => r is None && final(self).last_err == Some(e),
            },
    {
        match result {
            Ok(v) => Some(v),
            Err(e) => {
                self.last_err = Some(e);
                None
            },
        }
    }

    /// The answer when the helper could not list the candidate paths at
    /// all: a `HelperErrorDuringGetCandidatePathsForBinaryOrPdb` with the
    /// library's name and ID and the helper's error.
    pub fn listing_failed(debug_name: &str, breakpad_id: &str, helper_error: String) -> (e: GetSymbolsError)
        ensures
            e matches GetSymbolsError::HelperErrorDuringGetCandidatePathsForBinaryOrPdb(n, id, m) && n@
                == debug_name@ && id@ == breakpad_id@ && m == helper_error,
    {
        GetSymbolsError::HelperErrorDuringGetCandidatePathsForBinaryOrPdb(
            debug_name.to_owned(),
            breakpad_id.to_owned(),
            helper_error,
        )
    }

    /// The answer when no candidate gave symbols: the last error met, or
    /// `NoCandidatePathForBinary` when there was no candidate at all.
    pub fn finish(self, debug_name: &str, breakpad_id: &str) -> (e: GetSymbolsError)
        ensures
            match self.last_err {
                Some(last) => e == last,
                None => e matches GetSymbolsError::NoCandidatePathForBinary(n, id) && n@ == debug_name@
                    && id@ == breakpad_id@,
            },
    {
        match self.last_err {
            Some(e) => e,
            None => GetSymbolsError::NoCandidatePathForBinary(debug_name.to_owned(), breakpad_id.to_owned()),
        }
    }
}

} // verus!
