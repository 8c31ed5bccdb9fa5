//! The response of `/symbolicate/v5`.
use std::collections::HashMap;
use vstd::prelude::*;

verus! {

pub struct Response {
    pub results: Vec<Result>,
}

pub struct Result {
    pub stacks: Vec<Stack>,
    pub found_modules: HashMap<String, bool>,
}

pub struct Stack(pub Vec<StackFrame>);

pub struct StackFrame {
    /// index of this StackFrame in its parent Stack
    pub frame: u32,
    pub module_offset: u64,
    pub module: String,
    pub symbol: Option<Symbol>,
}

pub struct Symbol {
    pub function: String,
    pub function_offset: u32,
}

} // verus!
