//! The response of `/symbolicate/v6a1`.
use crate::error::GetSymbolsError;
use vstd::prelude::*;

verus! {

pub struct Response {
    pub results: Vec<Result>,
}

/// The answer to one job.
pub struct Result {
    pub stacks: Vec<Stack>,
    /// One entry per library of the job's memory map.
    pub module_status: Vec<Option<ModuleStatus>>,
}

pub struct Stack(pub Vec<StackFrame>);

pub struct StackFrame {
    /// index of this StackFrame in its parent Stack
    pub frame: u32,
    pub module_offset: u32,
    pub module: String,
    pub symbol: Option<Symbol>,
}

pub struct Symbol {
    pub function: String,
    pub function_offset: u32,
    pub debug_info: Option<DebugInfo>,
}

pub struct DebugInfo {
    pub inline_stack: Vec<InlineStackFrame>,
}

pub struct InlineStackFrame {
    pub function_name: Option<String>,
    pub file_path: Option<String>,
    pub line_number: Option<u32>,
}

pub struct ModuleStatus {
    pub found: bool,
    pub symbol_count: u32,
    pub errors: Vec<Error>,
}

pub struct Error {
    pub name: String,
    pub message: String,
    pub filename: Option<String>,
    pub line: Option<String>,
}

impl Error {
    /// The response's report of `err`: its variant name and its message.
    pub open spec fn reports(&self, err: &GetSymbolsError) -> bool {
        &&& self.name@ == err.spec_name()@
        &&& self.message@ == err.spec_message()
        &&& self.filename is None
        &&& self.line is None
    }

    /// Reports `err`.
    pub fn from_symbols_error(err: &GetSymbolsError) -> (r: Self)
        ensures
            r.reports(err),
    {
        Error {
            name: err.enum_as_string().to_owned(),
            message: err.to_string(),
            filename: None,
            line: None,
        }
    }
}

} // verus!
