//! The `/symbolicate/v5` data as the symbol library sees it: its request and
//! response types, and the symbol table that answers lookups.
pub mod request_json;
pub mod response_json;
pub mod symbol_table;
