//! How PDB types are written as text: the names of primitive types.
use crate::pdb_info::type_size::PrimitiveKind;
use crate::text::{string_push, string_push_str};
use vstd::prelude::*;

verus! {

/// The C++ name of a primitive kind.
pub open spec fn primitive_name(kind: PrimitiveKind) -> Seq<char> {
    match kind {
        PrimitiveKind::NoType => "<NoType>"@,
        PrimitiveKind::Void => "void"@,
        PrimitiveKind::Char => "signed char"@,
        PrimitiveKind::UChar => "unsigned char"@,
        PrimitiveKind::RChar => "char"@,
        PrimitiveKind::WChar => "wchar_t"@,
        PrimitiveKind::RChar16 => "char16_t"@,
        PrimitiveKind::RChar32 => "char32_t"@,
        PrimitiveKind::I8 => "int8_t"@,
        PrimitiveKind::U8 => "uint8_t"@,
        PrimitiveKind::Short => "short"@,
        PrimitiveKind::UShort => "unsigned short"@,
        PrimitiveKind::I16 => "int16_t"@,
        PrimitiveKind::U16 => "uint16_t"@,
        PrimitiveKind::Long => "long"@,
        PrimitiveKind::ULong => "unsigned long"@,
        PrimitiveKind::I32 => "int"@,
        PrimitiveKind::U32 => "unsigned int"@,
        PrimitiveKind::Quad => "long long"@,
        PrimitiveKind::UQuad => "unsigned long long"@,
        PrimitiveKind::I64 => "int64_t"@,
        PrimitiveKind::U64 => "uint64_t"@,
        PrimitiveKind::I128 => "int128_t"@,
        PrimitiveKind::Octa => "int128_t"@,
        PrimitiveKind::U128 => "uint128_t"@,
        PrimitiveKind::UOcta => "uint128_t"@,
        PrimitiveKind::F16 => "float16_t"@,
        PrimitiveKind::F32 => "float"@,
        PrimitiveKind::F32PP => "float"@,
        PrimitiveKind::F48 => "float48_t"@,
        PrimitiveKind::F64 => "double"@,
        PrimitiveKind::F80 => "long double"@,
        PrimitiveKind::F128 => "long double"@,
        PrimitiveKind::Complex32 => "complex<float>"@,
        PrimitiveKind::Complex64 => "complex<double>"@,
        PrimitiveKind::Complex80 => "complex<long double>"@,
        PrimitiveKind::Complex128 => "complex<long double>"@,
        PrimitiveKind::Bool8 => "bool"@,
        PrimitiveKind::Bool16 => "bool16_t"@,
        PrimitiveKind::Bool32 => "bool32_t"@,
        PrimitiveKind::Bool64 => "bool64_t"@,
        PrimitiveKind::HRESULT => "HRESULT"@,
    }
}

/// The C++ name of a primitive kind.
pub fn primitive_kind_name(kind: PrimitiveKind) -> (name: &'static str)
    ensures
        name@ == primitive_name(kind),
{
    match kind {
        PrimitiveKind::NoType => "<NoType>",
        PrimitiveKind::Void => "void",
        PrimitiveKind::Char => "signed char",
        PrimitiveKind::UChar => "unsigned char",
        PrimitiveKind::RChar => "char",
        PrimitiveKind::WChar => "wchar_t",
        PrimitiveKind::RChar16 => "char16_t",
        PrimitiveKind::RChar32 => "char32_t",
        PrimitiveKind::I8 => "int8_t",
        PrimitiveKind::U8 => "uint8_t",
        PrimitiveKind::Short => "short",
        PrimitiveKind::UShort => "unsigned short",
        PrimitiveKind::I16 => "int16_t",
        PrimitiveKind::U16 => "uint16_t",
        PrimitiveKind::Long => "long",
        PrimitiveKind::ULong => "unsigned long",
        PrimitiveKind::I32 => "int",
        PrimitiveKind::U32 => "unsigned int",
        PrimitiveKind::Quad => "long long",
        PrimitiveKind::UQuad => "unsigned long long",
        PrimitiveKind::I64 => "int64_t",
        PrimitiveKind::U64 => "uint64_t",
        PrimitiveKind::I128 => "int128_t",
        PrimitiveKind::Octa => "int128_t",
        PrimitiveKind::U128 => "uint128_t",
        PrimitiveKind::UOcta => "uint128_t",
        PrimitiveKind::F16 => "float16_t",
        PrimitiveKind::F32 => "float",
        PrimitiveKind::F32PP => "float",
        PrimitiveKind::F48 => "float48_t",
        PrimitiveKind::F64 => "double",
        PrimitiveKind::F80 => "long double",
        PrimitiveKind::F128 => "long double",
        PrimitiveKind::Complex32 => "complex<float>",
        PrimitiveKind::Complex64 => "complex<double>",
        PrimitiveKind::Complex80 => "complex<long double>",
        PrimitiveKind::Complex128 => "complex<long double>",
        PrimitiveKind::Bool8 => "bool",
        PrimitiveKind::Bool16 => "bool16_t",
        PrimitiveKind::Bool32 => "bool32_t",
        PrimitiveKind::Bool64 => "bool64_t",
        PrimitiveKind::HRESULT => "HRESULT",
    }
}

/// A primitive type as text: its name, as a pointer to it where `indirect`
/// (with a space before the `*` where `space_before_pointer`), and marked
/// `const` where `is_const`.
pub open spec fn primitive_text(
    kind: PrimitiveKind,
    indirect: bool,
    is_const: bool,
    space_before_pointer: bool,
) -> Seq<char> {
    let name = primitive_name(kind);
    if indirect {
        if space_before_pointer {
            if is_const {
                name + " const *"@
            } else {
                name + " *"@
            }
        } else if is_const {
            name + " const*"@
        } else {
            name + "*"@
        }
    } else if is_const {
        "const "@ + name
    } else {
        name
    }
}

/// Writes a primitive type as text: see `primitive_text`.
pub fn emit_primitive(kind: PrimitiveKind, indirect: bool, is_const: bool, space_before_pointer: bool) -> (text:
    String)
    ensures
        text@ == primitive_text(kind, indirect, is_const, space_before_pointer),
{
    let name = primitive_kind_name(kind);
    let mut text = String::new();
    if indirect {
        string_push_str(&mut text, name);
        if space_before_pointer {
            if is_const {
                string_push_str(&mut text, " const *");
            } else {
                string_push_str(&mut text, " *");
            }
        } else if is_const {
            string_push_str(&mut text, " const*");
        } else {
            string_push_str(&mut text, "*");
        }
    } else {
        if is_const {
            string_push_str(&mut text, "const ");
        }
        string_push_str(&mut text, name);
    }
    text
}

/// A named type as text: the name alone where `name_only`, else the kind of
/// type, a space and the name.
pub open spec fn named_text(base: Seq<char>, name: Seq<char>, name_only: bool) -> Seq<char> {
    if name_only {
        name
    } else {
        base + " "@ + name
    }
}

/// Writes a named type as text: see `named_text`.
pub fn emit_named(base: &str, name: &str, name_only: bool) -> (text: String)
    ensures
        text@ == named_text(base@, name@, name_only),
{
    let mut text = String::new();
    if !name_only {
        string_push_str(&mut text, base);
        string_push_str(&mut text, " ");
    }
    string_push_str(&mut text, name);
    text
}


/// How a pointer refers to what it points to.
#[derive(Clone, Copy, Debug, PartialEq, Eq, Structural)]
pub enum PointerMode {
    Pointer,
    LValueReference,
    Member,
    MemberFunction,
    RValueReference,
}

/// One level of a pointer type: whether the pointer and what it points to
/// are const, and the kind of pointer.
#[derive(Clone, Copy, Debug, PartialEq, Eq, Structural)]
pub struct PtrAttributes {
    pub is_pointer_const: bool,
    pub is_pointee_const: bool,
    pub mode: PointerMode,
}

/// The sigil that writes a kind of pointer.
pub open spec fn pointer_sigil(mode: PointerMode) -> Seq<char> {
    match mode {
        PointerMode::Pointer => "*"@,
        PointerMode::LValueReference => "&"@,
        PointerMode::Member => "::*"@,
        PointerMode::MemberFunction => "::*"@,
        PointerMode::RValueReference => "&&"@,
    }
}

/// The text of one pointer level: ` const` for a const pointee (with the
/// space left out at the very beginning unless allowed), a space before the
/// sigil where spaces go before pointers and the byte before is no sigil,
/// the sigil, and ` const` for a const pointer.
pub open spec fn attribute_text(
    a: PtrAttributes,
    at_beginning: bool,
    allow_space_at_beginning: bool,
    previous_byte_was_pointer_sigil: bool,
    space_before_pointer: bool,
) -> Seq<char> {
    let may_space = !at_beginning || allow_space_at_beginning;
    let pointee = if a.is_pointee_const {
        (if may_space { seq![' '] } else { Seq::<char>::empty() }) + "const"@
    } else {
        Seq::<char>::empty()
    };
    let at_beginning_now = at_beginning && !a.is_pointee_const;
    let sigil_before = previous_byte_was_pointer_sigil && !a.is_pointee_const;
    let space = if space_before_pointer && !sigil_before && (!at_beginning_now || allow_space_at_beginning) {
        seq![' ']
    } else {
        Seq::<char>::empty()
    };
    pointee + space + pointer_sigil(a.mode) + (if a.is_pointer_const { " const"@ } else { Seq::<char>::empty() })
}

/// The text of the first `k` pointer levels written, outermost first (the
/// last of `attrs` is written first): each level sees whether it is the
/// first, and whether the byte before it is a sigil (the one before the
/// first is given; after a level, it is one unless that pointer is const).
pub open spec fn attributes_text(
    attrs: Seq<PtrAttributes>,
    k: nat,
    allow_space_at_beginning: bool,
    previous_byte_was_pointer_sigil: bool,
    space_before_pointer: bool,
) -> Seq<char>
    decreases k,
{
    if k == 0 {
        seq![]
    } else {
        let j = k - 1;
        let n = attrs.len();
        attributes_text(attrs, j as nat, allow_space_at_beginning, previous_byte_was_pointer_sigil, space_before_pointer)
            + attribute_text(
            attrs[n - 1 - j],
            j == 0,
            allow_space_at_beginning,
            if j == 0 { previous_byte_was_pointer_sigil } else { !attrs[n - j].is_pointer_const },
            space_before_pointer,
        )
    }
}

/// Appends one pointer level: see `attribute_text`.
fn emit_attribute(
    w: &mut String,
    attr: PtrAttributes,
    at_beginning: bool,
    allow_space_at_beginning: bool,
    previous_byte_was_pointer_sigil: bool,
    space_before_pointer: bool,
)
    ensures
        final(w)@ == old(w)@ + attribute_text(
            attr,
            at_beginning,
            allow_space_at_beginning,
            previous_byte_was_pointer_sigil,
            space_before_pointer,
        ),
{
    let ghost start = w@;
    let may_space = !at_beginning || allow_space_at_beginning;
    if attr.is_pointee_const {
        if may_space {
            string_push(w, ' ');
        }
        string_push_str(w, "const");
    }
    let ghost after_pointee = w@;
    assert(after_pointee =~= start + (if attr.is_pointee_const {
        (if may_space { seq![' '] } else { Seq::<char>::empty() }) + "const"@
    } else {
        Seq::<char>::empty()
    }));
    let at_beginning_now = at_beginning && !attr.is_pointee_const;
    let sigil_before = previous_byte_was_pointer_sigil && !attr.is_pointee_const;
    if space_before_pointer && !sigil_before && (!at_beginning_now || allow_space_at_beginning) {
        string_push(w, ' ');
    }
    let ghost after_space = w@;
    match attr.mode {
        PointerMode::Pointer => string_push_str(w, "*"),
        PointerMode::LValueReference => string_push_str(w, "&"),
        PointerMode::Member => string_push_str(w, "::*"),
        PointerMode::MemberFunction => string_push_str(w, "::*"),
        PointerMode::RValueReference => string_push_str(w, "&&"),
    }
    assert(w@ == after_space + pointer_sigil(attr.mode));
    let ghost after_sigil = w@;
    if attr.is_pointer_const {
        string_push_str(w, " const");
    }
    assert(w@ =~= start + attribute_text(
        attr,
        at_beginning,
        allow_space_at_beginning,
        previous_byte_was_pointer_sigil,
        space_before_pointer,
    ));
}

/// Writes the levels of a pointer type, outermost first: see `attributes_text`.
pub fn emit_attributes(
    attrs: &[PtrAttributes],
    space_before_pointer: bool,
    allow_space_at_beginning: bool,
    previous_byte_was_pointer_sigil: bool,
) -> (text: String)
    ensures
        text@ == attributes_text(
            attrs@,
            attrs@.len(),
            allow_space_at_beginning,
            previous_byte_was_pointer_sigil,
            space_before_pointer,
        ),
{
    let n = attrs.len();
    let mut w = String::new();
    let mut previous = previous_byte_was_pointer_sigil;
    let mut k: usize = 0;
    while k < n
        invariant
            n == attrs@.len(),
            k <= n,
            previous == if k == 0 { previous_byte_was_pointer_sigil } else { !attrs@[n - k].is_pointer_const },
            w@ == attributes_text(attrs@, k as nat, allow_space_at_beginning, previous_byte_was_pointer_sigil, space_before_pointer),
        decreases n - k,
    {
        let attr = attrs[n - 1 - k];
        emit_attribute(&mut w, attr, k == 0, allow_space_at_beginning, previous, space_before_pointer);
        previous = !attr.is_pointer_const;
        k = k + 1;
    }
    w
}

} // verus!
