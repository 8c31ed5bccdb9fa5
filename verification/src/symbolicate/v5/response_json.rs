//! The response of `/symbolicate/v5`, with the debug information of the
//! symbols where it was found.
use crate::error::GetSymbolsError;
use std::collections::HashMap;
use vstd::prelude::*;

verus! {

pub struct Response {
    pub results: Vec<Result>,
}

/// The answer to one job.
pub struct Result {
    pub stacks: Vec<Stack>,
    /// For each library, keyed `debug_name/breakpad_id`, whether its symbols were found.
    pub found_modules: HashMap<String, bool>,
    /// The errors met per library.
    pub module_errors: HashMap<String, Vec<Error>>,
}

pub struct Stack(pub Vec<StackFrame>);

pub struct StackFrame {
    /// index of this StackFrame in its parent Stack
    pub frame: u32,
    pub module_offset: u32,
    pub module: String,
    pub symbol: Option<Symbol>,
}

pub struct Symbol {
    pub function: String,
    pub function_offset: u32,
    pub function_size: Option<u32>,
    pub debug_info: Option<DebugInfo>,
}

pub struct DebugInfo {
    pub file: Option<String>,
    pub line: Option<u32>,
    pub inlines: Vec<InlineStackFrame>,
}

pub struct InlineStackFrame {
    pub function: Option<String>,
    pub file: Option<String>,
    pub line: Option<u32>,
}

pub struct Error {
    pub name: String,
    pub message: String,
    pub filename: Option<String>,
    pub line: Option<u32>,
}

impl Error {
    /// The response's report of `err`: its variant name and its message.
    pub open spec fn reports(&self, err: &GetSymbolsError) -> bool {
        &&& self.name@ == err.spec_name()@
        &&& self.message@ == err.spec_message()
        &&& self.filename is None
        &&& self.line is None
    }

    /// Reports `err`.
    pub fn from_symbols_error(err: &GetSymbolsError) -> (r: Self)
        ensures
            r.reports(err),
    {
        Error {
            name: err.enum_as_string().to_owned(),
            message: err.to_string(),
            filename: None,
            line: None,
        }
    }
}

} // verus!
