use samply_core::dwarf::AddressPair;
use samply_core::pdb_info::type_formatter::TypeFormatter;
use samply_core::pdb_info::type_names::PointerMode;
use samply_core::pdb_info::type_size::{
    get_data_size, pointer_size_for_machine, ClassKind, DataSize, PrimitiveKind, TypeDumper, TypeRecord, TypeTable,
    Variant,
};

fn class(forward_reference: bool, size: u16, name: &str) -> TypeRecord {
    TypeRecord::Class {
        forward_reference,
        size,
        name: name.as_bytes().to_vec(),
        kind: ClassKind::Struct,
        display_name: name.to_string(),
    }
}

fn union(forward_reference: bool, size: u32, name: &str) -> TypeRecord {
    TypeRecord::Union { forward_reference, size, name: name.as_bytes().to_vec(), display_name: name.to_string() }
}

#[test]
fn primitive_sizes() {
    let p = |kind| TypeRecord::Primitive { indirect: false, kind };
    assert_eq!(get_data_size(&p(PrimitiveKind::Void), 8, &[]), DataSize::Bytes(0));
    assert_eq!(get_data_size(&p(PrimitiveKind::Char), 8, &[]), DataSize::Bytes(1));
    assert_eq!(get_data_size(&p(PrimitiveKind::WChar), 8, &[]), DataSize::Bytes(2));
    assert_eq!(get_data_size(&p(PrimitiveKind::HRESULT), 8, &[]), DataSize::Bytes(4));
    assert_eq!(get_data_size(&p(PrimitiveKind::Complex32), 8, &[]), DataSize::Bytes(8));
    assert_eq!(get_data_size(&p(PrimitiveKind::UOcta), 8, &[]), DataSize::Bytes(16));
    assert_eq!(get_data_size(&p(PrimitiveKind::F48), 8, &[]), DataSize::Bytes(6));
    assert_eq!(get_data_size(&p(PrimitiveKind::F80), 8, &[]), DataSize::Bytes(10));
    assert_eq!(get_data_size(&p(PrimitiveKind::Complex80), 8, &[]), DataSize::Bytes(20));
    assert_eq!(get_data_size(&p(PrimitiveKind::Complex128), 8, &[]), DataSize::Bytes(32));
    // A pointer to a primitive has the size of a pointer.
    let ptr = TypeRecord::Primitive { indirect: true, kind: PrimitiveKind::Complex128 };
    assert_eq!(get_data_size(&ptr, 4, &[]), DataSize::Bytes(4));
}

#[test]
fn composite_sizes() {
    let fwd = vec![(b"Foo".to_vec(), 48u32), (b"Bar".to_vec(), 12u32), (b"Foo".to_vec(), 64u32)];
    let defined = class(false, 24, "Foo");
    assert_eq!(get_data_size(&defined, 8, &fwd), DataSize::Bytes(24));
    // A forward reference takes the size of the last record of its name.
    let fwd_class = class(true, 0, "Foo");
    assert_eq!(get_data_size(&fwd_class, 8, &fwd), DataSize::Bytes(64));
    let fwd_unknown = union(true, 5, "Baz");
    assert_eq!(get_data_size(&fwd_unknown, 8, &fwd), DataSize::Bytes(5));
    assert_eq!(get_data_size(&TypeRecord::Procedure { return_type: None, argument_list: 0, is_constructor: false }, 8, &[]), DataSize::Bytes(8));
    assert_eq!(get_data_size(&TypeRecord::MemberFunction { return_type: 0, class_type: 0, this_pointer_type: None, argument_list: 0, is_constructor: false }, 4, &[]), DataSize::Bytes(4));
    assert_eq!(get_data_size(&TypeRecord::Pointer { size: 8, is_const: false, mode: PointerMode::Pointer, underlying_type: 0 }, 4, &[]), DataSize::Bytes(8));
    assert_eq!(get_data_size(&TypeRecord::Array { dimensions: vec![4, 16, 64], element_type: 0 }, 8, &[]), DataSize::Bytes(64));
    assert_eq!(get_data_size(&TypeRecord::Enumeration { underlying_type: 0x74, display_name: "E".to_string() }, 8, &[]), DataSize::SizeOfType(0x74));
    assert_eq!(get_data_size(&TypeRecord::Modifier { underlying_type: 0x1003, constant: true }, 8, &[]), DataSize::SizeOfType(0x1003));
    assert_eq!(get_data_size(&TypeRecord::Enumerate { value: Variant::I16(-3), display_name: "A".to_string() }, 8, &[]), DataSize::Bytes(2));
    assert_eq!(get_data_size(&TypeRecord::Enumerate { value: Variant::U64(3), display_name: "B".to_string() }, 8, &[]), DataSize::Bytes(8));
    assert_eq!(get_data_size(&TypeRecord::Other { description: String::new() }, 8, &[]), DataSize::Bytes(0));
}

fn example_types() -> Vec<Option<TypeRecord>> {
    vec![
        // 0: a 32-bit int
        Some(TypeRecord::Primitive { indirect: false, kind: PrimitiveKind::I32 }),
        // 1: a forward reference to "S"
        Some(class(true, 0, "S")),
        // 2: the definition of "S"
        Some(class(false, 40, "S")),
        // 3: a const S (modifier of the forward reference)
        Some(TypeRecord::Modifier { underlying_type: 1, constant: true }),
        // 4: an enumeration over int
        Some(TypeRecord::Enumeration { underlying_type: 0, display_name: "E".to_string() }),
        // 5: a record that does not parse
        None,
        // 6: a modifier of the enumeration
        Some(TypeRecord::Modifier { underlying_type: 4, constant: false }),
        // 7: a union "U"
        Some(union(false, 12, "U")),
        // 8: a pointer to a primitive
        Some(TypeRecord::Primitive { indirect: true, kind: PrimitiveKind::U8 }),
    ]
}

#[test]
fn type_sizes_by_index() {
    let dumper = TypeDumper::new(example_types(), 8, 0);
    assert_eq!(dumper.get_type_size(0), 4);
    assert_eq!(dumper.get_type_size(1), 40);
    assert_eq!(dumper.get_type_size(2), 40);
    assert_eq!(dumper.get_type_size(3), 40);
    assert_eq!(dumper.get_type_size(4), 4);
    assert_eq!(dumper.get_type_size(5), 0);
    assert_eq!(dumper.get_type_size(6), 4);
    assert_eq!(dumper.get_type_size(7), 12);
    assert_eq!(dumper.get_type_size(8), 8);
    let table = TypeTable::new(example_types(), 4);
    assert_eq!(table.get_type_size(8), 4);
}

#[test]
fn type_formatter_pointer_size_follows_the_machine() {
    assert_eq!(pointer_size_for_machine(0x8664), 8);
    assert_eq!(pointer_size_for_machine(0xAA64), 8);
    assert_eq!(pointer_size_for_machine(0x200), 8);
    assert_eq!(pointer_size_for_machine(0x5064), 8);
    assert_eq!(pointer_size_for_machine(0x5128), 16);
    assert_eq!(pointer_size_for_machine(0x14c), 4);
    assert_eq!(pointer_size_for_machine(0x1c0), 4);
    let formatter = TypeFormatter::new(example_types(), Vec::new(), 0x14c, 0);
    assert_eq!(formatter.get_type_size(8), 4);
    assert_eq!(formatter.get_type_size(3), 40);
    let formatter = TypeFormatter::new(example_types(), Vec::new(), 0x8664, 0);
    assert_eq!(formatter.get_type_size(8), 8);
}

#[test]
fn address_pair_for_the_same_object() {
    let p = AddressPair::same(0x1234);
    assert_eq!(p.original_address, 0x1234);
    assert_eq!(p.address_in_this_object, 0x1234);
}
