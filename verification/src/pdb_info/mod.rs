//! PDB debug information: frames by address, and the sizes and names of
//! types.
pub mod addr2line;
pub mod type_size;
pub mod type_names;
pub mod type_formatter;
