//! The request of the `/asm/v1` API, whose addresses are `0x`-prefixed hex strings.
use crate::api::request_json::{debug_quote, debug_quoted};
use crate::gecko_profile::{hex_lower, push_hex_lower};
use crate::text::{parse_radix_16, str_eq, string_push, string_push_str, u32_from_hex_str};
use vstd::prelude::*;
use vstd::string::StrSliceExecFns;

verus! {

/// A disassembly request.
pub struct Request {
    pub name: Option<String>,
    pub code_id: Option<String>,
    pub debug_name: Option<String>,
    pub debug_id: Option<String>,
    /// The start address where the disassembly should start, as a
    /// library-relative offset in bytes.
    pub start_address: u32,
    /// The length, in bytes, of the machine code that should be disassembled.
    pub size: u32,
    /// Whether to continue disassembling after `start_address + size` until the
    /// end of the function that `start_address` was found in.
    pub continue_until_function_end: bool,
}

/// Why a field that must hold a `0x`-prefixed hex number could not be read.
pub enum HexFieldError {
    /// The text does not start with `0x`; the message names the text.
    MissingPrefix(String),
    /// The digits after `0x` are not a hex number that fits in `u32`.
    InvalidNumber,
}

/// The value of a `0x`-prefixed hex string, as the API reads addresses and sizes.
pub open spec fn spec_prefixed_hex(s: Seq<char>) -> Option<nat> {
    if s.len() >= 2 && s[0] == '0' && s[1] == 'x' {
        parse_radix_16(s.skip(2), 0xffff_ffff)
    } else {
        None
    }
}

/// Reads a `0x`-prefixed hex string as a `u32`. The digits after the prefix
/// are read as `u32::from_str_radix(_, 16)` reads them.
pub fn parse_prefixed_hex_u32(s: &str) -> (r: Result<u32, HexFieldError>)
    ensures
        match r {
            Ok(v) => spec_prefixed_hex(s@) == Some(v as nat),
            Err(HexFieldError::MissingPrefix(m)) => !(s@.len() >= 2 && s@[0] == '0' && s@[1] == 'x')
                && m@ == "Unexpected hex string "@ + s@ + " without 0x prefix."@,
            Err(HexFieldError::InvalidNumber) => (s@.len() >= 2 && s@[0] == '0' && s@[1] == 'x')
                && spec_prefixed_hex(s@) is None,
        },
{
    let len = s.unicode_len();
    if len >= 2 && s.get_char(0) == '0' && s.get_char(1) == 'x' {
        let digits = s.substring_char(2, len);
        match u32_from_hex_str(digits) {
            Some(v) => Ok(v),
            None => Err(HexFieldError::InvalidNumber),
        }
    } else {
        let mut m = String::new();
        string_push_str(&mut m, "Unexpected hex string ");
        string_push_str(&mut m, s);
        string_push_str(&mut m, " without 0x prefix.");
        Err(HexFieldError::MissingPrefix(m))
    }
}

/// One disassembled instruction.
pub struct DecodedInstruction {
    /// Byte offset from start_address.
    pub offset: u32,
    /// The decoded instruction as a string, one for each syntax.
    pub decoded_string_per_syntax: Vec<String>,
}


/// Why an `/asm/v1` request failed.
#[derive(Debug)]
pub enum AsmError {
    /// The binary could not be loaded; the reason.
    LoadBinaryError(String),
    /// The binary could not be parsed; the reason.
    ObjectParseError(String),
    /// The requested address is in no section of the binary.
    AddressNotFound,
    /// The requested bytes are not all in the section that holds the address.
    ByteRangeNotInSection,
    /// The binary's architecture is not one the disassembler knows; its name.
    UnrecognizedArch(String),
    /// The requested bytes could not be read from the file; the reason.
    FileIO(String),
}

impl AsmError {
    /// The error's message, as the API reports it.
    pub open spec fn spec_message(&self) -> Seq<char> {
        match self {
            AsmError::LoadBinaryError(e) => "An error occurred when loading the binary: "@ + e@,
            AsmError::ObjectParseError(e) => "object parse error: "@ + e@,
            AsmError::AddressNotFound => "The requested address was not found in any section in the binary."@,
            AsmError::ByteRangeNotInSection => "Could not read the requested address range from the section (might be out of bounds or the section might not have any bytes in the file)"@,
            AsmError::UnrecognizedArch(a) => "Unrecognized architecture "@ + debug_quoted(a@),
            AsmError::FileIO(e) => "Could not read the requested address range from the file: "@ + e@,
        }
    }

    /// The error's message, as the API reports it.
    pub fn message(&self) -> (m: String)
        ensures
            m@ == self.spec_message(),
    {
        let mut m = String::new();
        match self {
            AsmError::LoadBinaryError(e) => {
                string_push_str(&mut m, "An error occurred when loading the binary: ");
                string_push_str(&mut m, e.as_str());
            },
            AsmError::ObjectParseError(e) => {
                string_push_str(&mut m, "object parse error: ");
                string_push_str(&mut m, e.as_str());
            },
            AsmError::AddressNotFound => string_push_str(
                &mut m,
                "The requested address was not found in any section in the binary.",
            ),
            AsmError::ByteRangeNotInSection => string_push_str(
                &mut m,
                "Could not read the requested address range from the section (might be out of bounds or the section might not have any bytes in the file)",
            ),
            AsmError::UnrecognizedArch(a) => {
                string_push_str(&mut m, "Unrecognized architecture ");
                let q = debug_quote(a.as_str());
                string_push_str(&mut m, q.as_str());
            },
            AsmError::FileIO(e) => {
                string_push_str(&mut m, "Could not read the requested address range from the file: ");
                string_push_str(&mut m, e.as_str());
            },
        }
        m
    }
}

/// An instruction set that the disassembler knows.
#[derive(PartialEq, Eq, Structural, Clone, Copy, Debug)]
pub enum AsmArch {
    X86,
    X86_64,
    Arm64,
    Arm,
}

/// The instruction set for a binary's architecture name, if the
/// disassembler knows it.
pub open spec fn spec_asm_arch(arch: Seq<char>) -> Option<AsmArch> {
    if arch == "x86"@ {
        Some(AsmArch::X86)
    } else if arch == "x86_64"@ || arch == "x86_64h"@ {
        Some(AsmArch::X86_64)
    } else if arch == "arm64"@ || arch == "arm64e"@ {
        Some(AsmArch::Arm64)
    } else if arch == "arm"@ {
        Some(AsmArch::Arm)
    } else {
        None
    }
}

/// Picks the instruction set to decode with. A binary without an
/// architecture, or with one the disassembler does not know, is refused
/// with the name to report: the architecture's, or `unknown`.
pub fn asm_arch(arch: Option<&str>) -> (r: Result<AsmArch, AsmError>)
    ensures
        match arch {
            Some(a) => match spec_asm_arch(a@) {
                Some(k) => r matches Ok(x) && x == k,
                None => r matches Err(AsmError::UnrecognizedArch(name)) && name@ == a@,
            },
            None => r matches Err(AsmError::UnrecognizedArch(name)) && name@ == "unknown"@,
        },
{
    match arch {
        Some(a) => {
            if str_eq(a, "x86") {
                Ok(AsmArch::X86)
            } else if str_eq(a, "x86_64") || str_eq(a, "x86_64h") {
                Ok(AsmArch::X86_64)
            } else if str_eq(a, "arm64") || str_eq(a, "arm64e") {
                Ok(AsmArch::Arm64)
            } else if str_eq(a, "arm") {
                Ok(AsmArch::Arm)
            } else {
                let mut name = String::new();
                string_push_str(&mut name, a);
                Err(AsmError::UnrecognizedArch(name))
            }
        },
        None => {
            let mut name = String::new();
            string_push_str(&mut name, "unknown");
            Err(AsmError::UnrecognizedArch(name))
        },
    }
}

/// Where decoding starts for a requested start address: instructions are
/// four bytes apart on 64-bit ARM and two on 32-bit ARM, so the address is
/// rounded down to that alignment there.
pub fn instruction_start(arch: Option<&str>, start_address: u32) -> (a: u32)
    ensures
        a == match arch {
            Some(x) => if x@ == "arm64"@ || x@ == "arm64e"@ {
                start_address - start_address % 4
            } else if x@ == "arm"@ {
                start_address - start_address % 2
            } else {
                start_address as int
            },
            None => start_address as int,
        },
{
    match arch {
        Some(x) => {
            if str_eq(x, "arm64") || str_eq(x, "arm64e") {
                assert(start_address & !3u32 == start_address - start_address % 4) by (bit_vector);
                start_address & !3u32
            } else if str_eq(x, "arm") {
                assert(start_address & !1u32 == start_address - start_address % 2) by (bit_vector);
                start_address & !1u32
            } else {
                start_address
            }
        },
        None => start_address,
    }
}

/// The end of the function that a symbol covers: its address plus its size,
/// when the symbol has a size and the sum fits in 32 bits.
pub fn function_end_address(symbol_address: u32, symbol_size: Option<u32>) -> (r: Option<u32>)
    ensures
        r == match symbol_size {
            Some(size) => if symbol_address + size <= u32::MAX {
                Some((symbol_address + size) as u32)
            } else {
                None::<u32>
            },
            None => None::<u32>,
        },
{
    match symbol_size {
        Some(size) => symbol_address.checked_add(size),
        None => None,
    }
}

/// How many bytes to disassemble: the requested size, or up to the end of
/// the function that holds the start address when that reaches further.
pub fn disassembly_len(start_address: u32, size: u32, function_end: Option<u32>) -> (len: u32)
    ensures
        len == match function_end {
            Some(end) => if end >= start_address && end - start_address > size {
                end - start_address
            } else {
                size as int
            },
            None => size as int,
        },
{
    match function_end {
        Some(end) => {
            if end >= start_address && end - start_address > size {
                end - start_address
            } else {
                size
            }
        },
        None => size,
    }
}

/// The text that labels a branch target with the symbol that holds it:
/// `<name>` at the symbol's own address, else `<name+0x..>` with the
/// offset into the symbol in lowercase hex.
pub open spec fn branch_symbol_label(name: Seq<char>, symbol_address: u32, target_address: u32) -> Seq<char> {
    if symbol_address == target_address {
        "<"@ + name + ">"@
    } else {
        "<"@ + name + "+0x"@ + hex_lower((target_address - symbol_address) as nat) + ">"@
    }
}

/// Labels a branch target by the symbol found at it, if any was found
/// (its name and its start address, which is not above the target).
pub fn format_branch_symbol(target_address: u32, symbol: Option<(&str, u32)>) -> (r: Option<String>)
    requires
        symbol matches Some((_, a)) ==> a <= target_address,
    ensures
        match symbol {
            Some((name, a)) => r matches Some(s) && s@ == branch_symbol_label(name@, a, target_address),
            None => r is None,
        },
{
    match symbol {
        Some((name, a)) => {
            proof {
                reveal_strlit("<");
                reveal_strlit(">");
            }
            let mut s = String::new();
            string_push(&mut s, '<');
            string_push_str(&mut s, name);
            if a == target_address {
                string_push(&mut s, '>');
                assert(s@ =~= "<"@ + name@ + ">"@);
            } else {
                string_push_str(&mut s, "+0x");
                push_hex_lower(&mut s, (target_address - a) as u64);
                string_push(&mut s, '>');
                assert(s@ =~= "<"@ + name@ + "+0x"@ + hex_lower((target_address - a) as nat) + ">"@);
            }
            Some(s)
        },
        None => None,
    }
}


/// Where an `/asm/v1` query stands between the outside steps that it asks
/// for: the binary, optionally a symbol map to find the end of the
/// function, and then the bytes to decode.
pub enum AsmPhase {
    /// Waiting for the binary.
    AwaitingBinary { start_address: u32, size: u32, continue_until_function_end: bool },
    /// Waiting for a symbol map that may extend the length to the end of
    /// the function that holds the start address.
    AwaitingFunctionEnd { start_address: u32, size: u32 },
    /// Ready to decode `len` bytes from `rel_address`, as the architecture
    /// of the binary says.
    Decoding { rel_address: u32, len: u32, arch: Option<String> },
    /// The query failed.
    Failed(AsmError),
}

/// The decoding phase for a binary of the given architecture.
pub open spec fn decoding_phase(arch: Option<&str>, start_address: u32, len: u32, p: AsmPhase) -> bool {
    p matches AsmPhase::Decoding { rel_address, len: l, arch: a } && l == len && rel_address == match arch {
        Some(x) => if x@ == "arm64"@ || x@ == "arm64e"@ {
            start_address - start_address % 4
        } else if x@ == "arm"@ {
            start_address - start_address % 2
        } else {
            start_address as int
        },
        None => start_address as int,
    } && match (a, arch) {
        (Some(t), Some(x)) => t@ == x@,
        (None, None) => true,
        _ => false,
    }
}

/// The first phase of a query: waiting for the binary.
pub fn asm_query_start(request: &Request) -> (p: AsmPhase)
    ensures
        p == (AsmPhase::AwaitingBinary {
            start_address: request.start_address,
            size: request.size,
            continue_until_function_end: request.continue_until_function_end,
        }),
{
    AsmPhase::AwaitingBinary {
        start_address: request.start_address,
        size: request.size,
        continue_until_function_end: request.continue_until_function_end,
    }
}

fn copy_arch(arch: Option<&str>) -> (r: Option<String>)
    ensures
        match (r, arch) {
            (Some(t), Some(x)) => t@ == x@,
            (None, None) => true,
            _ => false,
        },
{
    match arch {
        Some(x) => {
            let mut t = String::new();
            string_push_str(&mut t, x);
            Some(t)
        },
        None => None,
    }
}

/// The phase after the binary was asked for: failed with its error, or
/// on to the function's end when the request asks for it, or else straight
/// to decoding the requested size. `binary` is the architecture of the
/// binary that was loaded, or why none could be.
pub fn asm_after_binary(start_address: u32, size: u32, continue_until_function_end: bool, binary: Result<
    Option<&str>,
    String,
>) -> (p: AsmPhase)
    ensures
        match binary {
            Err(e) => p matches AsmPhase::Failed(AsmError::LoadBinaryError(m)) && m@ == e@,
            Ok(arch) => if continue_until_function_end {
                p == (AsmPhase::AwaitingFunctionEnd { start_address, size })
            } else {
                decoding_phase(arch, start_address, size, p)
            },
        },
{
    match binary {
        Err(e) => AsmPhase::Failed(AsmError::LoadBinaryError(e)),
        Ok(arch) => {
            if continue_until_function_end {
                AsmPhase::AwaitingFunctionEnd { start_address, size }
            } else {
                let rel_address = instruction_start(arch, start_address);
                AsmPhase::Decoding { rel_address, len: size, arch: copy_arch(arch) }
            }
        },
    }
}

/// The phase after the symbol map for the function's end was asked for:
/// decoding, up to the end of the symbol that holds the start address where
/// the map gave one (its address and size) and it reaches further than the
/// requested size. A map that could not be had leaves the requested size.
pub fn asm_after_function_end(start_address: u32, size: u32, symbol: Option<(u32, Option<u32>)>, arch: Option<
    &str,
>) -> (p: AsmPhase)
    ensures
        decoding_phase(
            arch,
            start_address,
            match symbol {
                Some((a, s)) => match s {
                    Some(sz) => if a + sz <= u32::MAX && a + sz >= start_address && a + sz - start_address > size {
                        (a + sz - start_address) as u32
                    } else {
                        size
                    },
                    None => size,
                },
                None => size,
            },
            p,
        ),
{
    let end = match symbol {
        Some((a, s)) => function_end_address(a, s),
        None => None,
    };
    let len = disassembly_len(start_address, size, end);
    let rel_address = instruction_start(arch, start_address);
    AsmPhase::Decoding { rel_address, len, arch: copy_arch(arch) }
}

} // verus!
