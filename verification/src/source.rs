//! The request of `/source/v1`: which source file to hand out, named by a
//! library, an address in it and the file's path.
use crate::text::{str_eq, string_push_str};
use vstd::prelude::*;

verus! {

pub struct Request {
    /// The debugName of the library whose symbol information contains
    /// a reference to the requested file.
    pub debug_name: String,
    /// The debugId / "breakpadId" of the library whose symbol information
    /// contains a reference to the requested file.
    pub debug_id: String,
    /// An address, interpreted as a library-relative offset in bytes.
    /// This address is symbolicated, and any of the files referenced in
    /// the symbolication results is eligible to be requested.
    pub module_offset: u32,
    /// The full path of the requested file, must match exactly what
    /// /symbolicate/v5 returned in its response json for the given
    /// address.
    pub file: String,
}


/// Why a `/source/v1` request failed.
#[derive(Debug)]
pub enum SourceError {
    /// The library's symbols could not be obtained; the reason.
    NoSymbols(String),
    /// The library has no debug info for the requested address.
    NoDebugInfo,
    /// The requested path is none of those that the address's frames name.
    InvalidPath,
    /// The source file could not be read; the reason.
    FileLoadError(String),
}

impl SourceError {
    /// The error's message, as the API reports it.
    pub open spec fn spec_message(&self) -> Seq<char> {
        match self {
            SourceError::NoSymbols(e) => "Could not obtain symbols for the requested library: "@ + e@,
            SourceError::NoDebugInfo => "Don't have any debug info for the requested library"@,
            SourceError::InvalidPath => "The requested path is not present in the symbolication frames"@,
            SourceError::FileLoadError(e) => "An error occurred when reading the file: "@ + e@,
        }
    }

    /// The error's message, as the API reports it.
    pub fn message(&self) -> (m: String)
        ensures
            m@ == self.spec_message(),
    {
        let mut m = String::new();
        match self {
            SourceError::NoSymbols(e) => {
                string_push_str(&mut m, "Could not obtain symbols for the requested library: ");
                string_push_str(&mut m, e.as_str());
            },
            SourceError::NoDebugInfo => string_push_str(&mut m, "Don't have any debug info for the requested library"),
            SourceError::InvalidPath => string_push_str(
                &mut m,
                "The requested path is not present in the symbolication frames",
            ),
            SourceError::FileLoadError(e) => {
                string_push_str(&mut m, "An error occurred when reading the file: ");
                string_push_str(&mut m, e.as_str());
            },
        }
        m
    }
}

/// The source file of one frame at the requested address: its path as the
/// API names it in responses, and its path as the debug info holds it.
pub struct FrameSourceFile {
    pub api_path: String,
    pub raw_path: String,
}

/// The frame files before position `k` name no file `requested` by its API path.
pub open spec fn none_named_before(files: Seq<FrameSourceFile>, requested: Seq<char>, k: int) -> bool {
    forall|j: int| 0 <= j < k ==> (#[trigger] files[j]).api_path@ != requested
}

/// Picks the file to read for a source request, from the files that the
/// frames at the requested address name (`None` where the library has no
/// debug info there): the position of the first one whose API path is the
/// requested one. Its debug-info path is the file to read.
pub fn source_file_for_request(requested_file: &str, frames: Option<&Vec<FrameSourceFile>>) -> (r: Result<
    usize,
    SourceError,
>)
    ensures
        frames is None ==> r matches Err(SourceError::NoDebugInfo),
        frames matches Some(files) ==> (r is Err <==> none_named_before(files@, requested_file@, files@.len() as int)),
        frames is Some && r is Err ==> r matches Err(SourceError::InvalidPath),
        match (frames, r) {
            (Some(files), Ok(k)) => k < files@.len() && files@[k as int].api_path@ == requested_file@
                && none_named_before(files@, requested_file@, k as int),
            _ => true,
        },
{
    match frames {
        None => Err(SourceError::NoDebugInfo),
        Some(files) => {
            let mut k: usize = 0;
            while k < files.len()
                invariant
                    frames == Some(files),
                    k <= files@.len(),
                    none_named_before(files@, requested_file@, k as int),
                decreases files@.len() - k,
            {
                if str_eq(files[k].api_path.as_str(), requested_file) {
                    return Ok(k);
                }
                k = k + 1;
            }
            Err(SourceError::InvalidPath)
        },
    }
}


/// What a symbol map says of the requested address: the source files that
/// its frames name, or that the frames are in another file still to be
/// read, or nothing.
pub enum FramesLookup {
    Available(Vec<FrameSourceFile>),
    External,
    Missing,
}

/// Where a `/source/v1` query stands between the outside steps that it
/// asks for.
pub enum SourcePhase {
    /// Waiting for the library's symbol map.
    AwaitingSymbolMap,
    /// Waiting for a file that holds the address's frames.
    AwaitingExternalFile,
    /// Waiting for the source file at `raw_path`, to answer for `requested_file`.
    AwaitingSourceFile { requested_file: String, raw_path: String },
    /// The answer: the requested file and its text.
    Answered { file: String, source: String },
    /// The query failed.
    Failed(SourceError),
}

/// The phase that the frames' files lead to: reading the first one named
/// as requested, or failing.
pub open spec fn phase_for_frames(requested_file: Seq<char>, files: Option<Seq<FrameSourceFile>>, p: SourcePhase) -> bool {
    match files {
        None => p matches SourcePhase::Failed(SourceError::NoDebugInfo),
        Some(fs) => if none_named_before(fs, requested_file, fs.len() as int) {
            p matches SourcePhase::Failed(SourceError::InvalidPath)
        } else {
            p matches SourcePhase::AwaitingSourceFile { requested_file: r, raw_path } && r@ == requested_file
                && exists|k: int|
                #![trigger fs[k]]
                0 <= k < fs.len() && fs[k].api_path@ == requested_file && none_named_before(fs, requested_file, k)
                    && raw_path@ == fs[k].raw_path@
        },
    }
}

fn phase_after_frames(requested_file: String, files: Option<Vec<FrameSourceFile>>) -> (p: SourcePhase)
    ensures
        phase_for_frames(
            requested_file@,
            match files {
                Some(v) => Some(v@),
                None => None,
            },
            p,
        ),
{
    match files {
        None => SourcePhase::Failed(SourceError::NoDebugInfo),
        Some(v) => {
            match source_file_for_request(requested_file.as_str(), Some(&v)) {
                Ok(k) => {
                    let raw_path = v[k].raw_path.clone();
                    assert(v@[k as int].raw_path@ == raw_path@);
                    SourcePhase::AwaitingSourceFile { requested_file, raw_path }
                },
                Err(e) => SourcePhase::Failed(e),
            }
        },
    }
}

/// The phase after a symbol map was asked for: failed when there is none
/// (with the reason), or on to the frames that the map gives for the
/// address.
pub fn source_after_symbol_map(requested_file: String, lookup: Result<FramesLookup, String>) -> (p: SourcePhase)
    ensures
        match lookup {
            Err(e) => p matches SourcePhase::Failed(SourceError::NoSymbols(m)) && m@ == e@,
            Ok(FramesLookup::Available(fs)) => phase_for_frames(requested_file@, Some(fs@), p),
            Ok(FramesLookup::External) => p is AwaitingExternalFile,
            Ok(FramesLookup::Missing) => p matches SourcePhase::Failed(SourceError::NoDebugInfo),
        },
{
    match lookup {
        Err(e) => SourcePhase::Failed(SourceError::NoSymbols(e)),
        Ok(FramesLookup::Available(fs)) => phase_after_frames(requested_file, Some(fs)),
        Ok(FramesLookup::External) => SourcePhase::AwaitingExternalFile,
        Ok(FramesLookup::Missing) => SourcePhase::Failed(SourceError::NoDebugInfo),
    }
}

/// The phase after a file that holds the frames was asked for: the frames
/// that the lookup with it gives, another file to read, or no debug info.
pub fn source_after_external_file(requested_file: String, lookup: FramesLookup) -> (p: SourcePhase)
    ensures
        match lookup {
            FramesLookup::Available(fs) => phase_for_frames(requested_file@, Some(fs@), p),
            FramesLookup::External => p is AwaitingExternalFile,
            FramesLookup::Missing => p matches SourcePhase::Failed(SourceError::NoDebugInfo),
        },
{
    match lookup {
        FramesLookup::Available(fs) => phase_after_frames(requested_file, Some(fs)),
        FramesLookup::External => SourcePhase::AwaitingExternalFile,
        FramesLookup::Missing => SourcePhase::Failed(SourceError::NoDebugInfo),
    }
}

/// The phase after the source file was asked for: the answer with its
/// text, or failed with why it could not be read.
pub fn source_after_source_file(requested_file: String, source: Result<String, String>) -> (p: SourcePhase)
    ensures
        match source {
            Ok(text) => p matches SourcePhase::Answered { file, source } && file@ == requested_file@ && source@ == text@,
            Err(e) => p matches SourcePhase::Failed(SourceError::NoSymbols(m)) && m@ == e@,
        },
{
    match source {
        Ok(text) => SourcePhase::Answered { file: requested_file, source: text },
        Err(e) => SourcePhase::Failed(SourceError::NoSymbols(e)),
    }
}

} // verus!
