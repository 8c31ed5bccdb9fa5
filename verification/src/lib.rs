//! Symbolication for profilers, with its logic verified: looking up the
//! symbols and inline frames of addresses in the binaries and debug files of
//! libraries, the JSON APIs that answer symbolication requests, the compact
//! symbol table format, and the bookkeeping of a sampling profiler (its task
//! list, its frame-pointer stack walk and its Gecko profile builder).
//!
//! Reading files, parsing binaries, talking to the kernel and producing JSON
//! happen outside this crate; its functions take and give plain values.
pub mod text;
pub mod windows;
pub mod gecko_profile;
pub mod demangle_ocaml;
pub mod api;
pub mod shared;
pub mod symbols;
pub mod compact_symbol_table;
pub mod looked_up_addresses;
pub mod proc_maps;
pub mod seqs;
pub mod macho;
pub mod v5;
pub mod error;
pub mod symbolicate;
pub mod kernel_error;
pub mod debug_id_ext;
pub mod pdb_info;
pub mod dwarf;
pub mod source;
pub mod file_read_stats;
pub mod symbol_query;
pub mod path_mapper;
pub mod stackwalk;
pub mod sampler;
pub mod thread_sampling;
pub mod profile_order;
