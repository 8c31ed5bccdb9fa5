use samply_core::pdb_info::type_names::{emit_attributes, PointerMode, PtrAttributes};
use samply_core::pdb_info::type_names::{emit_named, emit_primitive, primitive_kind_name};
use samply_core::pdb_info::type_size::PrimitiveKind;

#[test]
fn primitive_names() {
    assert_eq!(primitive_kind_name(PrimitiveKind::NoType), "<NoType>");
    assert_eq!(primitive_kind_name(PrimitiveKind::Char), "signed char");
    assert_eq!(primitive_kind_name(PrimitiveKind::RChar), "char");
    assert_eq!(primitive_kind_name(PrimitiveKind::I32), "int");
    assert_eq!(primitive_kind_name(PrimitiveKind::ULong), "unsigned long");
    assert_eq!(primitive_kind_name(PrimitiveKind::Octa), "int128_t");
    assert_eq!(primitive_kind_name(PrimitiveKind::UOcta), "uint128_t");
    assert_eq!(primitive_kind_name(PrimitiveKind::F80), "long double");
    assert_eq!(primitive_kind_name(PrimitiveKind::Complex64), "complex<double>");
    assert_eq!(primitive_kind_name(PrimitiveKind::Bool8), "bool");
    assert_eq!(primitive_kind_name(PrimitiveKind::HRESULT), "HRESULT");
}

#[test]
fn primitive_pointers_and_const() {
    assert_eq!(emit_primitive(PrimitiveKind::I32, false, false, false), "int");
    assert_eq!(emit_primitive(PrimitiveKind::I32, false, true, false), "const int");
    assert_eq!(emit_primitive(PrimitiveKind::I32, false, true, true), "const int");
    assert_eq!(emit_primitive(PrimitiveKind::Void, true, false, false), "void*");
    assert_eq!(emit_primitive(PrimitiveKind::Void, true, true, false), "void const*");
    assert_eq!(emit_primitive(PrimitiveKind::Void, true, false, true), "void *");
    assert_eq!(emit_primitive(PrimitiveKind::UChar, true, true, true), "unsigned char const *");
}

#[test]
fn named_types() {
    assert_eq!(emit_named("class", "Foo", false), "class Foo");
    assert_eq!(emit_named("class", "Foo", true), "Foo");
    assert_eq!(emit_named("union", "", false), "union ");
}

fn level(mode: PointerMode, is_pointee_const: bool, is_pointer_const: bool) -> PtrAttributes {
    PtrAttributes { is_pointer_const, is_pointee_const, mode }
}

#[test]
fn pointer_levels_are_written_outermost_first() {
    let p = level(PointerMode::Pointer, false, false);
    assert_eq!(emit_attributes(&[p], false, false, false), "*");
    assert_eq!(emit_attributes(&[p], true, true, false), " *");
    assert_eq!(emit_attributes(&[p], true, false, false), "*");
    assert_eq!(emit_attributes(&[p], true, true, true), "*");
    let to_const = level(PointerMode::Pointer, true, false);
    assert_eq!(emit_attributes(&[to_const], false, true, false), " const*");
    assert_eq!(emit_attributes(&[to_const], true, true, false), " const *");
    assert_eq!(emit_attributes(&[to_const], false, false, false), "const*");
    let const_ref = level(PointerMode::LValueReference, false, true);
    assert_eq!(emit_attributes(&[p, const_ref], true, false, false), "& const *");
    assert_eq!(emit_attributes(&[p, const_ref], false, false, false), "& const*");
    let plain_ref = level(PointerMode::LValueReference, false, false);
    assert_eq!(emit_attributes(&[p, plain_ref], true, false, false), "&*");
    assert_eq!(emit_attributes(&[level(PointerMode::RValueReference, false, false)], false, false, false), "&&");
    assert_eq!(emit_attributes(&[level(PointerMode::Member, false, false)], false, false, false), "::*");
    assert_eq!(emit_attributes(&[level(PointerMode::MemberFunction, false, false)], false, false, false), "::*");
    assert_eq!(emit_attributes(&[], true, true, false), "");
}
