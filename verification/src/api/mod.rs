//! The JSON symbolication API: its requests, the endpoints it serves, the
//! errors it reports with their HTTP status, per-request statistics, and the
//! `/symbolicate/v5` query that gathers them.
pub mod asm_request;
pub mod request_json;
pub mod symbolicate;

use crate::api::asm_request::AsmError;
use crate::source::SourceError;
use crate::text::{str_eq, string_push_str};
use debugid::DebugId;
use vstd::prelude::*;

verus! {

/// The outcome of loading symbols for one module during a `/symbolicate/v5` request.
pub enum ModuleLoadOutcome {
    /// Symbols were loaded successfully.
    Loaded,
    /// Symbol loading failed; `error_name` names the kind of error.
    Failed { error_name: &'static str },
}

/// Per-module observability data collected during a `/symbolicate/v5` request.
pub struct ModuleStat {
    pub debug_name: String,
    pub breakpad_id: String,
    pub outcome: ModuleLoadOutcome,
}

/// Observability data for a `/symbolicate/v5` request; not part of the JSON response.
pub struct SymbolicateStats {
    /// Number of jobs in the request.
    pub jobs_count: usize,
    /// Total number of stacks across all jobs.
    pub stacks_count: usize,
    /// Total number of frames across all jobs.
    pub frames_count: usize,
    /// One entry per unique (debug_name, breakpad_id) pair that was looked up.
    pub module_stats: Vec<ModuleStat>,
}

/// The errors of the API.
pub enum Error {
    UnrecognizedUrl(String),
    /// The request JSON could not be parsed; the parser's message.
    ParseRequestErrorSerde(String),
    ParseRequestErrorContents(&'static str),
    /// An error from obtaining symbols, with its message.
    Symbols(String),
    /// An error of a `/source/v1` request.
    Source(SourceError),
    /// An error of an `/asm/v1` request.
    Asm(AsmError),
}

impl Error {
    /// The HTTP status code for this error.
    pub open spec fn spec_http_status(&self) -> u16 {
        match self {
            Error::ParseRequestErrorSerde(_) => 400,
            Error::ParseRequestErrorContents(_) => 400,
            Error::UnrecognizedUrl(_) => 404,
            Error::Symbols(_) | Error::Source(_) | Error::Asm(_) => 500,
        }
    }

    /// The error's message, as the API reports it.
    pub open spec fn spec_message(&self) -> Seq<char> {
        match self {
            Error::UnrecognizedUrl(u) => "Unrecognized URL: "@ + u@,
            Error::ParseRequestErrorSerde(e) => "Couldn't parse request: "@ + e@,
            Error::ParseRequestErrorContents(e) => "Malformed request JSON: "@ + e@,
            Error::Symbols(e) => e@,
            Error::Source(e) => e.spec_message(),
            Error::Asm(e) => e.spec_message(),
        }
    }

    /// The error's message, as the API reports it.
    pub fn message(&self) -> (m: String)
        ensures
            m@ == self.spec_message(),
    {
        match self {
            Error::UnrecognizedUrl(u) => {
                let mut m = String::new();
                string_push_str(&mut m, "Unrecognized URL: ");
                string_push_str(&mut m, u.as_str());
                m
            },
            Error::ParseRequestErrorSerde(e) => {
                let mut m = String::new();
                string_push_str(&mut m, "Couldn't parse request: ");
                string_push_str(&mut m, e.as_str());
                m
            },
            Error::ParseRequestErrorContents(e) => {
                let mut m = String::new();
                string_push_str(&mut m, "Malformed request JSON: ");
                string_push_str(&mut m, e);
                m
            },
            Error::Symbols(e) => e.clone(),
            Error::Source(e) => e.message(),
            Error::Asm(e) => e.message(),
        }
    }

    /// Returns the HTTP status code that best describes this error.
    pub fn http_status(&self) -> (s: u16)
        ensures
            s == self.spec_http_status(),
    {
        match self {
            Error::ParseRequestErrorSerde(_) => 400,
            Error::ParseRequestErrorContents(_) => 400,
            Error::UnrecognizedUrl(_) => 404,
            Error::Symbols(_) | Error::Source(_) | Error::Asm(_) => 500,
        }
    }
}

/// The endpoints that the API serves.
pub enum Endpoint {
    /// `/symbolicate/v5`
    Symbolicate,
    /// `/source/v1`
    Source,
    /// `/asm/v1`
    Asm,
}

/// The "Tecken" JSON API.
pub struct Api;

impl Api {
    /// The endpoint that serves `request_url`, if any.
    pub open spec fn spec_endpoint(request_url: Seq<char>) -> Option<Endpoint> {
        if request_url == "/symbolicate/v5"@ {
            Some(Endpoint::Symbolicate)
        } else if request_url == "/source/v1"@ {
            Some(Endpoint::Source)
        } else if request_url == "/asm/v1"@ {
            Some(Endpoint::Asm)
        } else {
            None
        }
    }

    /// Picks the endpoint for a request URL; an unknown URL is an
    /// `UnrecognizedUrl` error that carries the URL.
    pub fn endpoint_for_url(request_url: &str) -> (r: Result<Endpoint, Error>)
        ensures
            match r {
                Ok(e) => Self::spec_endpoint(request_url@) == Some(e),
                Err(e) => Self::spec_endpoint(request_url@) is None && (e matches Error::UnrecognizedUrl(u)
                    && u@ == request_url@),
            },
    {
        if str_eq(request_url, "/symbolicate/v5") {
            Ok(Endpoint::Symbolicate)
        } else if str_eq(request_url, "/source/v1") {
            Ok(Endpoint::Source)
        } else if str_eq(request_url, "/asm/v1") {
            Ok(Endpoint::Asm)
        } else {
            Err(Error::UnrecognizedUrl(request_url.to_owned()))
        }
    }
}

/// A breakpad ID that does not name a library: it does not parse, or it is all zeros.
pub struct InvalidBreakpadId(pub String);

impl InvalidBreakpadId {
    /// The name of the error, as reports give it.
    pub fn enum_as_string(&self) -> (s: &'static str)
        ensures
            s@ == "InvalidBreakpadId"@,
    {
        "InvalidBreakpadId"
    }
}

/// Whether `DebugId::from_breakpad` accepts `s`.
pub uninterp spec fn breakpad_id_parses(s: Seq<char>) -> bool;

/// The debug ID that `DebugId::from_breakpad` reads from `s`, where it parses.
pub uninterp spec fn debug_id_of_breakpad(s: Seq<char>) -> DebugId;

/// Whether `DebugId::is_nil` holds of a debug ID: it is all zeros.
pub uninterp spec fn debug_id_nil(id: DebugId) -> bool;

/// A breakpad ID names a library: it parses, and the debug ID it spells is
/// not all zeros.
pub open spec fn valid_breakpad_id(s: Seq<char>) -> bool {
    breakpad_id_parses(s) && !debug_id_nil(debug_id_of_breakpad(s))
}

/// `DebugId::from_breakpad`: the debug ID that a breakpad ID spells, if it
/// parses. Both whether it parses and what it gives are functions of the
/// text alone.
#[verifier::external_body]
fn debug_id_from_breakpad(breakpad_id: &str) -> (r: Option<DebugId>)
    ensures
        r is Some <==> breakpad_id_parses(breakpad_id@),
        r matches Some(id) ==> id == debug_id_of_breakpad(breakpad_id@),
{
    DebugId::from_breakpad(breakpad_id).ok()
}

/// `DebugId::is_nil`: whether a debug ID is all zeros, a function of the
/// debug ID alone.
#[verifier::external_body]
fn debug_id_is_nil(debug_id: &DebugId) -> (r: bool)
    ensures
        r == debug_id_nil(*debug_id),
{
    debug_id.is_nil()
}

/// The debug ID of a breakpad ID: only IDs with the right syntax, and which
/// aren't all zeros, are accepted.
pub fn to_debug_id(breakpad_id: &str) -> (r: Result<DebugId, InvalidBreakpadId>)
    ensures
        match r {
            Ok(id) => breakpad_id_parses(breakpad_id@) && id == debug_id_of_breakpad(breakpad_id@) && !debug_id_nil(id),
            Err(e) => e.0@ == breakpad_id@ && (!breakpad_id_parses(breakpad_id@) || debug_id_nil(
                debug_id_of_breakpad(breakpad_id@),
            )),
        },
{
    match debug_id_from_breakpad(breakpad_id) {
        Some(debug_id) => {
            if debug_id_is_nil(&debug_id) {
                Err(InvalidBreakpadId(breakpad_id.to_owned()))
            } else {
                Ok(debug_id)
            }
        },
        None => Err(InvalidBreakpadId(breakpad_id.to_owned())),
    }
}

} // verus!
