use samply_core::pdb_info::type_formatter::{
    IdRecord, TypeFormatter, TypeNameError, NAME_ONLY, NO_FUNCTION_RETURN, NO_MEMBER_FUNCTION_STATIC,
    SPACE_AFTER_COMMA, SPACE_BEFORE_POINTER,
};
use samply_core::pdb_info::type_names::PointerMode;
use samply_core::pdb_info::type_size::{ClassKind, PrimitiveKind, TypeRecord};

const SYMBOLICATION: u32 = NO_FUNCTION_RETURN | SPACE_AFTER_COMMA | NAME_ONLY | NO_MEMBER_FUNCTION_STATIC;

fn pointer_to(underlying_type: u32) -> Option<TypeRecord> {
    Some(TypeRecord::Pointer { size: 8, is_const: false, mode: PointerMode::Pointer, underlying_type })
}

fn member_function(return_type: u32, this_pointer_type: Option<u32>, argument_list: u32) -> Option<TypeRecord> {
    Some(TypeRecord::MemberFunction { return_type, class_type: 4, this_pointer_type, argument_list, is_constructor: false })
}

fn types() -> Vec<Option<TypeRecord>> {
    vec![
        /* 0 */ Some(TypeRecord::Primitive { indirect: false, kind: PrimitiveKind::I32 }),
        /* 1 */ Some(TypeRecord::Primitive { indirect: false, kind: PrimitiveKind::Void }),
        /* 2 */ Some(TypeRecord::ArgumentList { arguments: vec![0, 3] }),
        /* 3 */ pointer_to(4),
        /* 4 */
        Some(TypeRecord::Class {
            forward_reference: false,
            size: 4,
            name: b"Foo".to_vec(),
            kind: ClassKind::Struct,
            display_name: "Foo".to_string(),
        }),
        /* 5 */ Some(TypeRecord::Procedure { return_type: Some(0), argument_list: 2, is_constructor: false }),
        /* 6 */ Some(TypeRecord::Modifier { underlying_type: 4, constant: true }),
        /* 7 */ pointer_to(6),
        /* 8 */ Some(TypeRecord::ArgumentList { arguments: vec![7] }),
        /* 9 */ member_function(1, Some(3), 8),
        /* 10 */ member_function(0, None, 2),
        /* 11 */ Some(TypeRecord::Array { dimensions: vec![40], element_type: 0 }),
        /* 12 */ None,
        /* 13 */ Some(TypeRecord::Other { description: "Bitfield".to_string() }),
        /* 14 */ member_function(0, None, 0),
        /* 15 */ member_function(1, Some(7), 16),
        /* 16 */ Some(TypeRecord::ArgumentList { arguments: vec![] }),
        /* 17 */ Some(TypeRecord::ArgumentList { arguments: vec![11, 13] }),
        /* 18 */ Some(TypeRecord::Procedure { return_type: None, argument_list: 17, is_constructor: false }),
        /* 19 */ member_function(0, Some(0), 16),
        /* 20 */ Some(TypeRecord::ArgumentList { arguments: vec![12] }),
        /* 21 */ Some(TypeRecord::Procedure { return_type: Some(0), argument_list: 20, is_constructor: false }),
    ]
}

fn ids() -> Vec<Option<IdRecord>> {
    vec![
        /* 0 */ Some(IdRecord::Function { name: "inl".to_string(), scope: None, function_type: 5 }),
        /* 1 */ Some(IdRecord::String { name: "ns".to_string() }),
        /* 2 */ Some(IdRecord::Function { name: "g".to_string(), scope: Some(1), function_type: 5 }),
        /* 3 */ Some(IdRecord::MemberFunction { name: "m".to_string(), parent: 4, function_type: 9 }),
        /* 4 */ Some(IdRecord::Function { name: "bad".to_string(), scope: None, function_type: 9 }),
        /* 5 */ None,
    ]
}

fn function(flags: u32, name: &str, index: u32) -> (String, Option<Result<(), TypeNameError>>) {
    let formatter = TypeFormatter::new(types(), ids(), 0x8664, flags);
    let mut text = String::new();
    let r = formatter.write_function(&mut text, name, index);
    (text, r)
}

fn id(flags: u32, index: u32) -> (String, Option<Result<(), TypeNameError>>) {
    let formatter = TypeFormatter::new(types(), ids(), 0x8664, flags);
    let mut text = String::new();
    let r = formatter.write_id(&mut text, index);
    (text, r)
}

#[test]
fn functions_without_type_are_their_names() {
    assert_eq!(function(SYMBOLICATION, "main", 0), ("main".to_string(), Some(Ok(()))));
    assert_eq!(function(SYMBOLICATION, "", 0), ("<name omitted>".to_string(), Some(Ok(()))));
    assert_eq!(function(SYMBOLICATION, "raw", 4), ("raw".to_string(), Some(Ok(()))));
}

#[test]
fn procedure_signatures() {
    assert_eq!(function(SYMBOLICATION, "foo", 5), ("foo(int, Foo*)".to_string(), Some(Ok(()))));
    assert_eq!(function(0, "foo", 5), ("int foo(int,struct Foo*)".to_string(), Some(Ok(()))));
    assert_eq!(function(SPACE_BEFORE_POINTER | NAME_ONLY, "foo", 5), ("int foo(int,Foo *)".to_string(), Some(Ok(()))));
    assert_eq!(
        function(SYMBOLICATION, "arr", 18),
        ("arr(int[10], unhandled type /* Bitfield */)".to_string(), Some(Ok(())))
    );
}

#[test]
fn method_signatures() {
    assert_eq!(function(SYMBOLICATION, "bar", 9), ("bar(Foo const*)".to_string(), Some(Ok(()))));
    assert_eq!(function(SYMBOLICATION, "baz", 15), ("baz() const".to_string(), Some(Ok(()))));
    assert_eq!(function(0, "make", 10), ("static int make(int,struct Foo*)".to_string(), Some(Ok(()))));
    assert_eq!(function(SYMBOLICATION, "make", 10), ("make(int, Foo*)".to_string(), Some(Ok(()))));
    // A `this` that is no pointer to the class is taken for a first argument.
    assert_eq!(function(SYMBOLICATION, "assoc", 19), ("assoc(int)".to_string(), Some(Ok(()))));
}

#[test]
fn failures_keep_what_was_written() {
    assert_eq!(function(SYMBOLICATION, "m", 14), ("m".to_string(), Some(Err(TypeNameError::ArgumentTypeNotArgumentList))));
    assert_eq!(function(SYMBOLICATION, "p", 12), (String::new(), Some(Err(TypeNameError::PdbError))));
    assert_eq!(function(SYMBOLICATION, "q", 21), ("q(".to_string(), Some(Err(TypeNameError::PdbError))));
    assert_eq!(function(SYMBOLICATION, "far", 1000).1, None);
}

#[test]
fn inlinee_names() {
    assert_eq!(id(SYMBOLICATION, 0), ("inl(int, Foo*)".to_string(), Some(Ok(()))));
    assert_eq!(id(SYMBOLICATION, 2), ("ns::g(int, Foo*)".to_string(), Some(Ok(()))));
    assert_eq!(id(SYMBOLICATION, 3), ("Foo::m(Foo const*)".to_string(), Some(Ok(()))));
    assert_eq!(id(SYMBOLICATION, 1), ("ns".to_string(), Some(Ok(()))));
    assert_eq!(id(SYMBOLICATION, 4), (String::new(), Some(Err(TypeNameError::FunctionIdIsNotProcedureType))));
    assert_eq!(id(SYMBOLICATION, 5), (String::new(), Some(Err(TypeNameError::PdbError))));
    assert_eq!(id(SYMBOLICATION, 99).1, None);
}

#[test]
fn type_name_error_messages() {
    assert_eq!(TypeNameError::ArgumentTypeNotArgumentList.message(), "Unexpected type for argument list");
    assert_eq!(
        TypeNameError::FunctionIdIsNotProcedureType.message(),
        "Id of type Function doesn't have type of Procedure"
    );
}
