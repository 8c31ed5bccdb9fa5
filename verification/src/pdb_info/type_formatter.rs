//! How a PDB's functions and inlined functions are named: their signatures,
//! written from the records of the type and id streams, with the return
//! type, the class or namespace, the argument types and the constness that
//! the formatter's flags ask for.
//!
//! Text is written into a `String` as it is produced: where a record turns
//! out not to parse, or not to be of the kind that its place asks for, the
//! writing stops with an error and what was written so far stays. A type
//! index beyond the stream, or a chain of references that goes round in a
//! loop, leaves no text to speak of: the formatter says so instead.
use crate::pdb_info::type_names::{
    attributes_text, emit_attributes, emit_named, emit_primitive, named_text, primitive_text, PtrAttributes,
};
use crate::pdb_info::type_size::{
    machine_pointer_size, pointer_size_for_machine, record_size, ClassKind, DataSize,
    TypeRecord, TypeTable,
};
use crate::text::{decimal, push_decimal, string_push_str};
use vstd::prelude::*;

verus! {

/// Leave out the return type of functions.
pub const NO_FUNCTION_RETURN: u32 = 1;

/// Leave out `static` before static methods.
pub const NO_MEMBER_FUNCTION_STATIC: u32 = 2;

/// Write a space after each comma of an argument list.
pub const SPACE_AFTER_COMMA: u32 = 4;

/// Write a space before a pointer's sigil.
pub const SPACE_BEFORE_POINTER: u32 = 8;

/// Write classes, unions and enumerations by their name alone.
pub const NAME_ONLY: u32 = 16;

/// Whether the flags ask for `flag`.
pub open spec fn has_flag(flags: u32, flag: u32) -> bool {
    flags & flag != 0
}

/// A record of a PDB's id stream, as far as the names of functions go.
/// Type indices name records of the type stream; `scope` names another
/// record of the id stream.
pub enum IdRecord {
    Function { name: String, scope: Option<u32>, function_type: u32 },
    MemberFunction { name: String, parent: u32, function_type: u32 },
    String { name: String },
    /// Any other record, with its description.
    Other { description: String },
}

/// Why a name could not be written in full.
#[derive(Clone, Copy, Debug, PartialEq, Eq, Structural)]
pub enum TypeNameError {
    /// A record that the name needs does not parse.
    PdbError,
    /// A method's argument list is not an argument-list record.
    ArgumentTypeNotArgumentList,
    /// A function id's type is not a procedure.
    FunctionIdIsNotProcedureType,
    /// A member function id's type is not a member function.
    MemberFunctionIdIsNotMemberFunctionType,
}

impl TypeNameError {
    /// The error's message.
    pub open spec fn spec_message(&self) -> Seq<char> {
        match self {
            TypeNameError::PdbError => "PDB error: a record does not parse"@,
            TypeNameError::ArgumentTypeNotArgumentList => "Unexpected type for argument list"@,
            TypeNameError::FunctionIdIsNotProcedureType => "Id of type Function doesn't have type of Procedure"@,
            TypeNameError::MemberFunctionIdIsNotMemberFunctionType => "Id of type MemberFunction doesn't have type of MemberFunction"@,
        }
    }

    /// The error's message.
    pub fn message(&self) -> (m: &'static str)
        ensures
            m@ == self.spec_message(),
    {
        match self {
            TypeNameError::PdbError => "PDB error: a record does not parse",
            TypeNameError::ArgumentTypeNotArgumentList => "Unexpected type for argument list",
            TypeNameError::FunctionIdIsNotProcedureType => "Id of type Function doesn't have type of Procedure",
            TypeNameError::MemberFunctionIdIsNotMemberFunctionType => "Id of type MemberFunction doesn't have type of MemberFunction",
        }
    }
}

/// What writing gives: the text written and the error that stopped it, if
/// any; `None` where a type index lies beyond the stream or the references
/// go deeper than the fuel allows.
pub type Emitted = Option<(Seq<char>, Option<TypeNameError>)>;

/// Writing `s`, which cannot fail.
pub open spec fn lit(s: Seq<char>) -> Emitted {
    Some((s, None))
}

/// Stopping with `e` before writing anything.
pub open spec fn failed(e: TypeNameError) -> Emitted {
    Some((Seq::<char>::empty(), Some(e)))
}

/// Writing `a` and then, unless `a` stopped, `b`.
pub open spec fn then(a: Emitted, b: Emitted) -> Emitted {
    match a {
        None => None,
        Some((t, Some(e))) => Some((t, Some(e))),
        Some((t, None)) => match b {
            None => None,
            Some((u, r)) => Some((t + u, r)),
        },
    }
}

/// A function's name, or a placeholder where it is empty.
pub open spec fn name_text(name: Seq<char>) -> Seq<char> {
    if name.len() == 0 {
        "<name omitted>"@
    } else {
        name
    }
}

/// The keyword of a class kind.
pub open spec fn class_kind_name(kind: ClassKind) -> Seq<char> {
    match kind {
        ClassKind::Class => "class"@,
        ClassKind::Interface => "interface"@,
        ClassKind::Struct => "struct"@,
    }
}

/// A class by its name alone where `name_only`, else after its keyword.
pub open spec fn class_text(kind: ClassKind, name: Seq<char>, name_only: bool) -> Seq<char> {
    if name_only {
        name
    } else {
        class_kind_name(kind) + " "@ + name
    }
}

/// The separator between two arguments.
pub open spec fn comma_text(flags: u32) -> Seq<char> {
    if has_flag(flags, SPACE_AFTER_COMMA) {
        ", "@
    } else {
        ","@
    }
}

/// `static ` before a static method, unless the flags leave it out.
pub open spec fn static_text(is_static: bool, flags: u32) -> Seq<char> {
    if is_static && !has_flag(flags, NO_MEMBER_FUNCTION_STATIC) {
        "static "@
    } else {
        Seq::<char>::empty()
    }
}

/// Whether a text ends with a pointer sigil, `*` or `&`.
pub open spec fn ends_with_sigil(t: Seq<char>) -> bool {
    t.len() > 0 && (t.last() == '*' || t.last() == '&')
}

/// The bracketed counts of the first `k` dimensions of an array: each
/// dimension's byte size divided by that of the next (the element's size
/// after the last), or `[]` where that size is zero.
pub open spec fn dims_text(dims: Seq<u32>, base_size: u32, k: nat) -> Seq<char>
    decreases k,
{
    if k == 0 {
        Seq::<char>::empty()
    } else {
        let j = (k - 1) as nat;
        let next = if j + 1 < dims.len() {
            dims[j + 1int]
        } else {
            base_size
        };
        dims_text(dims, base_size, j) + if next != 0 {
            "["@ + decimal((dims[j as int] / next) as nat) + "]"@
        } else {
            "[]"@
        }
    }
}

/// The outcome of writing, as a caller sees it: `None` where `e` is.
pub open spec fn outcome(e: Emitted) -> Option<Result<(), TypeNameError>> {
    match e {
        None => None,
        Some((_, None)) => Some(Ok(())),
        Some((_, Some(err))) => Some(Err(err)),
    }
}

/// The fuel of a formatter: eight levels of nesting for each record of its
/// streams, more than a formatting that ends can take, since such a chain
/// of references meets no record twice.
pub open spec fn formatter_fuel(types: nat, ids: nat) -> nat {
    if 8 * (types + ids + 1) <= u64::MAX {
        8 * (types + ids + 1)
    } else {
        u64::MAX as nat
    }
}

/// Writes out the names and signatures of a PDB's functions, and looks up
/// the sizes of its types.
pub struct TypeFormatter {
    table: TypeTable,
    ids: Vec<Option<IdRecord>>,
    flags: u32,
}

impl TypeFormatter {
    /// The type table the formatter reads.
    pub closed spec fn table(&self) -> TypeTable {
        self.table
    }

    /// The records of the id stream by index: `None` where a record does not parse.
    pub closed spec fn ids(&self) -> Seq<Option<IdRecord>> {
        self.ids@
    }

    /// The formatter's flags, as bits.
    pub closed spec fn flags(&self) -> u32 {
        self.flags
    }

    /// The fuel that names are written with.
    pub open spec fn fuel(&self) -> nat {
        formatter_fuel(self.table().types().len(), self.ids().len())
    }

    /// The type record at an index: `None` beyond the stream.
    pub open spec fn record_at(&self, i: u32) -> Option<Option<TypeRecord>> {
        if (i as int) < self.table().types().len() {
            Some(self.table().types()[i as int])
        } else {
            None
        }
    }

    /// The id record at an index: `None` beyond the stream.
    pub open spec fn id_at(&self, i: u32) -> Option<Option<IdRecord>> {
        if (i as int) < self.ids().len() {
            Some(self.ids()[i as int])
        } else {
            None
        }
    }

    /// The size of a record's type, as `get_data_size` gives it, following an
    /// enumeration or modified type to its underlying type (within the
    /// formatter's fuel).
    pub open spec fn base_size(&self, r: TypeRecord) -> Option<u32> {
        match record_size(r, self.table().ptr_size(), self.table().forward_ref_sizes()) {
            DataSize::Bytes(b) => Some(b),
            DataSize::SizeOfType(u) => self.table().size_within(u, self.fuel()),
        }
    }

    /// Whether the `this` type of a method is a pointer to its class (then
    /// with the class's constness), or else the extra first argument that
    /// the method takes: `this` itself.
    pub open spec fn this_constness(&self, this: u32, class: u32) -> Option<Result<(bool, Option<u32>), TypeNameError>> {
        match self.record_at(this) {
            None => None,
            Some(None) => Some(Err(TypeNameError::PdbError)),
            Some(Some(TypeRecord::Pointer { underlying_type, .. })) => if underlying_type == class {
                Some(Ok((false, None)))
            } else {
                match self.record_at(underlying_type) {
                    None => None,
                    Some(None) => Some(Err(TypeNameError::PdbError)),
                    Some(Some(TypeRecord::Modifier { underlying_type: m, constant })) => if m == class {
                        Some(Ok((constant, None)))
                    } else {
                        Some(Ok((false, Some(this))))
                    },
                    Some(Some(_)) => Some(Ok((false, Some(this)))),
                }
            },
            Some(Some(_)) => Some(Ok((false, Some(this)))),
        }
    }

    /// A type by its index.
    pub open spec fn type_index_text(&self, i: u32, fuel: nat) -> Emitted
        decreases fuel, 0nat,
    {
        if fuel == 0 {
            None
        } else {
            match self.record_at(i) {
                None => None,
                Some(None) => failed(TypeNameError::PdbError),
                Some(Some(r)) => self.type_text(r, (fuel - 1) as nat),
            }
        }
    }

    /// A type by its record.
    pub open spec fn type_text(&self, r: TypeRecord, fuel: nat) -> Emitted
        decreases fuel, 0nat,
    {
        if fuel == 0 {
            None
        } else {
            let f = (fuel - 1) as nat;
            let name_only = has_flag(self.flags(), NAME_ONLY);
            match r {
                TypeRecord::Primitive { indirect, kind } => lit(
                    primitive_text(kind, indirect, false, has_flag(self.flags(), SPACE_BEFORE_POINTER)),
                ),
                TypeRecord::Class { kind, display_name, .. } => lit(class_text(kind, display_name@, name_only)),
                TypeRecord::MemberFunction {
                    return_type,
                    class_type,
                    this_pointer_type,
                    argument_list,
                    is_constructor,
                } => then(
                    then(self.maybe_return_text(Some(return_type), is_constructor, f), lit("()"@)),
                    self.method_args_text(class_type, this_pointer_type, argument_list, false, f),
                ),
                TypeRecord::Procedure { return_type, argument_list, is_constructor } => then(
                    then(self.maybe_return_text(return_type, is_constructor, f), lit("()("@)),
                    self.type_index_text(argument_list, f),
                ),
                TypeRecord::ArgumentList { arguments } => self.args_text(arguments@, arguments@.len(), false, f),
                TypeRecord::Pointer { is_const, mode, underlying_type, .. } => self.ptr_text(
                    seq![PtrAttributes { is_pointer_const: is_const, is_pointee_const: false, mode }],
                    underlying_type,
                    f,
                ),
                TypeRecord::Array { dimensions, element_type } => if dimensions@.len() == 0 {
                    None
                } else {
                    self.array_text(seq![dimensions@[0]], element_type, f)
                },
                TypeRecord::Union { display_name, .. } => lit(named_text("union"@, display_name@, name_only)),
                TypeRecord::Enumeration { display_name, .. } => lit(named_text("enum"@, display_name@, name_only)),
                TypeRecord::Enumerate { display_name, .. } => lit(named_text("enum class"@, display_name@, name_only)),
                TypeRecord::Modifier { underlying_type, constant } => self.modifier_text(underlying_type, constant, f),
                TypeRecord::Other { description } => lit("unhandled type /* "@ + description@ + " */"@),
            }
        }
    }

    /// A return type and a space, unless the function is a constructor or
    /// has none.
    pub open spec fn return_text(&self, return_type: Option<u32>, is_constructor: bool, fuel: nat) -> Emitted
        decreases fuel, 0nat,
    {
        if fuel == 0 {
            None
        } else {
            match return_type {
                Some(t) => if !is_constructor {
                    then(self.type_index_text(t, (fuel - 1) as nat), lit(" "@))
                } else {
                    lit(Seq::<char>::empty())
                },
                None => lit(Seq::<char>::empty()),
            }
        }
    }

    /// A return type as `return_text` writes it, unless the flags leave
    /// return types out.
    pub open spec fn maybe_return_text(&self, return_type: Option<u32>, is_constructor: bool, fuel: nat) -> Emitted
        decreases fuel, 0nat,
    {
        if fuel == 0 {
            None
        } else if has_flag(self.flags(), NO_FUNCTION_RETURN) {
            lit(Seq::<char>::empty())
        } else {
            self.return_text(return_type, is_constructor, (fuel - 1) as nat)
        }
    }

    /// The first `k` arguments of a list, separated by commas, with a comma
    /// before the first too where `comma_before_first`.
    pub open spec fn args_text(&self, args: Seq<u32>, k: nat, comma_before_first: bool, fuel: nat) -> Emitted
        decreases fuel, k,
    {
        if fuel == 0 {
            None
        } else if k == 0 {
            lit(Seq::<char>::empty())
        } else {
            let j = (k - 1) as nat;
            let sep = if j == 0 && !comma_before_first {
                Seq::<char>::empty()
            } else {
                comma_text(self.flags())
            };
            then(
                self.args_text(args, j, comma_before_first, fuel),
                then(lit(sep), self.type_index_text(args[j as int], (fuel - 1) as nat)),
            )
        }
    }

    /// A method's arguments in parentheses, with the type of a `this` that
    /// is no pointer to the class as the first, and ` const` after them
    /// for a method of a const class where `allow_const`.
    pub open spec fn method_args_text(
        &self,
        class_type: u32,
        this_pointer_type: Option<u32>,
        argument_list: u32,
        allow_const: bool,
        fuel: nat,
    ) -> Emitted
        decreases fuel, 0nat,
    {
        if fuel == 0 {
            None
        } else {
            let f = (fuel - 1) as nat;
            match self.record_at(argument_list) {
                None => None,
                Some(None) => failed(TypeNameError::PdbError),
                Some(Some(TypeRecord::ArgumentList { arguments })) => {
                    let c = match this_pointer_type {
                        None => Some(Ok((false, None::<u32>))),
                        Some(this) => self.this_constness(this, class_type),
                    };
                    match c {
                        None => None,
                        Some(Err(e)) => failed(e),
                        Some(Ok((is_const, extra))) => then(
                            lit("("@),
                            then(
                                match extra {
                                    Some(first) => then(
                                        self.type_index_text(first, f),
                                        self.args_text(arguments@, arguments@.len(), true, f),
                                    ),
                                    None => self.args_text(arguments@, arguments@.len(), false, f),
                                },
                                lit(
                                    ")"@ + if is_const && allow_const {
                                        " const"@
                                    } else {
                                        Seq::<char>::empty()
                                    },
                                ),
                            ),
                        ),
                    }
                },
                Some(Some(_)) => failed(TypeNameError::ArgumentTypeNotArgumentList),
            }
        }
    }

    /// A pointer whose levels so far are `attrs` (the outermost first) and
    /// whose pointee is the type at `underlying`.
    pub open spec fn ptr_text(&self, attrs: Seq<PtrAttributes>, underlying: u32, fuel: nat) -> Emitted
        decreases fuel, 0nat,
    {
        if fuel == 0 || attrs.len() == 0 {
            None
        } else {
            let f = (fuel - 1) as nat;
            match self.record_at(underlying) {
                None => None,
                Some(None) => failed(TypeNameError::PdbError),
                Some(Some(TypeRecord::Pointer { is_const, mode, underlying_type, .. })) => self.ptr_text(
                    attrs.push(PtrAttributes { is_pointer_const: is_const, is_pointee_const: false, mode }),
                    underlying_type,
                    f,
                ),
                Some(Some(TypeRecord::Modifier { underlying_type, constant })) => {
                    let last = attrs.last();
                    let marked = attrs.update(
                        attrs.len() - 1,
                        PtrAttributes {
                            is_pointer_const: last.is_pointer_const,
                            is_pointee_const: constant,
                            mode: last.mode,
                        },
                    );
                    match self.record_at(underlying_type) {
                        None => None,
                        Some(None) => failed(TypeNameError::PdbError),
                        Some(Some(TypeRecord::Pointer { is_const, mode, underlying_type: u2, .. })) => self.ptr_text(
                            marked.push(PtrAttributes { is_pointer_const: is_const, is_pointee_const: false, mode }),
                            u2,
                            f,
                        ),
                        Some(Some(r2)) => self.ptr_helper(marked, r2, f),
                    }
                },
                Some(Some(r)) => self.ptr_helper(attrs, r, f),
            }
        }
    }

    /// A pointer with these levels to the type of record `r`: a pointer to
    /// member function, a function pointer, or the pointee's text followed
    /// by the levels.
    pub open spec fn ptr_helper(&self, attrs: Seq<PtrAttributes>, r: TypeRecord, fuel: nat) -> Emitted
        decreases fuel, 0nat,
    {
        if fuel == 0 {
            None
        } else {
            let f = (fuel - 1) as nat;
            let sbp = has_flag(self.flags(), SPACE_BEFORE_POINTER);
            match r {
                TypeRecord::MemberFunction {
                    return_type,
                    class_type,
                    this_pointer_type,
                    argument_list,
                    is_constructor,
                } => then(
                    self.return_text(Some(return_type), is_constructor, f),
                    then(
                        lit("("@),
                        then(
                            self.type_index_text(class_type, f),
                            then(
                                lit(attributes_text(attrs, attrs.len(), false, false, sbp) + ")"@),
                                self.method_args_text(class_type, this_pointer_type, argument_list, false, f),
                            ),
                        ),
                    ),
                ),
                TypeRecord::Procedure { return_type, argument_list, is_constructor } => then(
                    self.return_text(return_type, is_constructor, f),
                    then(
                        lit("("@ + attributes_text(attrs, attrs.len(), false, false, sbp) + ")("@),
                        then(self.type_index_text(argument_list, f), lit(")"@)),
                    ),
                ),
                _ => match self.type_text(r, f) {
                    None => None,
                    Some((t, Some(e))) => failed(e),
                    Some((t, None)) => lit(t + attributes_text(attrs, attrs.len(), true, ends_with_sigil(t), sbp)),
                },
            }
        }
    }

    /// An array whose dimensions so far are `dims` (in bytes, the outermost
    /// first) and whose elements have the type at `element_type`.
    pub open spec fn array_text(&self, dims: Seq<u32>, element_type: u32, fuel: nat) -> Emitted
        decreases fuel, 0nat,
    {
        if fuel == 0 {
            None
        } else {
            let f = (fuel - 1) as nat;
            match self.record_at(element_type) {
                None => None,
                Some(None) => failed(TypeNameError::PdbError),
                Some(Some(TypeRecord::Array { dimensions, element_type: e2 })) => if dimensions@.len() == 0 {
                    None
                } else {
                    self.array_text(dims.push(dimensions@[0]), e2, f)
                },
                Some(Some(base)) => match self.base_size(base) {
                    None => None,
                    Some(size) => then(self.type_text(base, f), lit(dims_text(dims, size, dims.len()))),
                },
            }
        }
    }

    /// The type at `underlying`, const where `constant`: a const pointer, a
    /// const primitive, or `const ` before the type.
    pub open spec fn modifier_text(&self, underlying: u32, constant: bool, fuel: nat) -> Emitted
        decreases fuel, 0nat,
    {
        if fuel == 0 {
            None
        } else {
            let f = (fuel - 1) as nat;
            match self.record_at(underlying) {
                None => None,
                Some(None) => failed(TypeNameError::PdbError),
                Some(Some(TypeRecord::Pointer { is_const, mode, underlying_type, .. })) => self.ptr_text(
                    seq![PtrAttributes { is_pointer_const: is_const || constant, is_pointee_const: false, mode }],
                    underlying_type,
                    f,
                ),
                Some(Some(TypeRecord::Primitive { indirect, kind })) => lit(
                    primitive_text(kind, indirect, constant, has_flag(self.flags(), SPACE_BEFORE_POINTER)),
                ),
                Some(Some(r)) => then(
                    lit(
                        if constant {
                            "const "@
                        } else {
                            Seq::<char>::empty()
                        },
                    ),
                    self.type_text(r, f),
                ),
            }
        }
    }

    /// A function's signature, from its name and the index of its type: the
    /// name alone for index zero or a type that is no function, else
    /// `static ` for a static method, the return type, the name and the
    /// arguments, as the flags ask.
    pub open spec fn function_text(&self, name: Seq<char>, function_type_index: u32, fuel: nat) -> Emitted {
        if function_type_index == 0 {
            lit(name_text(name))
        } else {
            match self.record_at(function_type_index) {
                None => None,
                Some(None) => failed(TypeNameError::PdbError),
                Some(Some(TypeRecord::MemberFunction {
                    return_type,
                    class_type,
                    this_pointer_type,
                    argument_list,
                    is_constructor,
                })) => then(
                    lit(static_text(this_pointer_type is None, self.flags())),
                    then(
                        self.maybe_return_text(Some(return_type), is_constructor, fuel),
                        then(
                            lit(name_text(name)),
                            self.method_args_text(class_type, this_pointer_type, argument_list, true, fuel),
                        ),
                    ),
                ),
                Some(Some(TypeRecord::Procedure { return_type, argument_list, is_constructor })) => then(
                    self.maybe_return_text(return_type, is_constructor, fuel),
                    then(
                        lit(name_text(name) + "("@),
                        then(self.type_index_text(argument_list, fuel), lit(")"@)),
                    ),
                ),
                Some(Some(_)) => lit(name),
            }
        }
    }

    /// The name of the function that an id record names: a member function
    /// with its class, a function with its scope, or a string.
    pub open spec fn id_text(&self, id: u32, fuel: nat) -> Emitted
        decreases fuel,
    {
        if fuel == 0 {
            None
        } else {
            let f = (fuel - 1) as nat;
            match self.id_at(id) {
                None => None,
                Some(None) => failed(TypeNameError::PdbError),
                Some(Some(IdRecord::MemberFunction { name, parent, function_type })) => match self.record_at(
                    function_type,
                ) {
                    None => None,
                    Some(None) => failed(TypeNameError::PdbError),
                    Some(Some(TypeRecord::MemberFunction {
                        return_type,
                        class_type,
                        this_pointer_type,
                        argument_list,
                        is_constructor,
                    })) => then(
                        lit(static_text(this_pointer_type is None, self.flags())),
                        then(
                            self.maybe_return_text(Some(return_type), is_constructor, f),
                            then(
                                self.type_index_text(parent, f),
                                then(
                                    lit("::"@ + name_text(name@)),
                                    self.method_args_text(class_type, this_pointer_type, argument_list, true, f),
                                ),
                            ),
                        ),
                    ),
                    Some(Some(_)) => failed(TypeNameError::MemberFunctionIdIsNotMemberFunctionType),
                },
                Some(Some(IdRecord::Function { name, scope, function_type })) => match self.record_at(function_type) {
                    None => None,
                    Some(None) => failed(TypeNameError::PdbError),
                    Some(Some(TypeRecord::Procedure { return_type, argument_list, is_constructor })) => then(
                        self.maybe_return_text(return_type, is_constructor, f),
                        then(
                            match scope {
                                Some(s) => then(self.id_text(s, f), lit("::"@)),
                                None => lit(Seq::<char>::empty()),
                            },
                            then(
                                lit(name_text(name@) + "("@),
                                then(self.type_index_text(argument_list, f), lit(")"@)),
                            ),
                        ),
                    ),
                    Some(Some(_)) => failed(TypeNameError::FunctionIdIsNotProcedureType),
                },
                Some(Some(IdRecord::String { name })) => lit(name@),
                Some(Some(IdRecord::Other { description })) => lit("<unhandled id scope "@ + description@ + ">::"@),
            }
        }
    }
}



/// Under `NAME_ONLY` a named type (class, union, enumeration or enumerate)
/// is written as its name alone; without it, as its keyword, a space and
/// its name.
pub proof fn law_named_types_follow_name_only(fmt: &TypeFormatter, r: TypeRecord, fuel: nat)
    requires
        fuel > 0,
    ensures
        r matches TypeRecord::Class { kind, display_name, .. } ==> fmt.type_text(r, fuel) == lit(
            if has_flag(fmt.flags(), NAME_ONLY) {
                display_name@
            } else {
                class_kind_name(kind) + seq![' '] + display_name@
            },
        ),
        r matches TypeRecord::Union { display_name, .. } ==> fmt.type_text(r, fuel) == lit(
            if has_flag(fmt.flags(), NAME_ONLY) {
                display_name@
            } else {
                seq!['u', 'n', 'i', 'o', 'n', ' '] + display_name@
            },
        ),
        r matches TypeRecord::Enumeration { display_name, .. } ==> fmt.type_text(r, fuel) == lit(
            if has_flag(fmt.flags(), NAME_ONLY) {
                display_name@
            } else {
                seq!['e', 'n', 'u', 'm', ' '] + display_name@
            },
        ),
        r matches TypeRecord::Enumerate { display_name, .. } ==> fmt.type_text(r, fuel) == lit(
            if has_flag(fmt.flags(), NAME_ONLY) {
                display_name@
            } else {
                seq!['e', 'n', 'u', 'm', ' ', 'c', 'l', 'a', 's', 's', ' '] + display_name@
            },
        ),
{
    reveal_strlit(" ");
    reveal_strlit("union");
    reveal_strlit("enum");
    reveal_strlit("enum class");
    match r {
        TypeRecord::Class { .. } => {
            assert(" "@ =~= seq![' ']);
        },
        TypeRecord::Union { display_name, .. } => {
            assert("union"@ + " "@ =~= seq!['u', 'n', 'i', 'o', 'n', ' ']);
        },
        TypeRecord::Enumeration { display_name, .. } => {
            assert("enum"@ + " "@ =~= seq!['e', 'n', 'u', 'm', ' ']);
        },
        TypeRecord::Enumerate { display_name, .. } => {
            assert("enum class"@ + " "@ =~= seq!['e', 'n', 'u', 'm', ' ', 'c', 'l', 'a', 's', 's', ' ']);
        },
        _ => {},
    }
}

/// Why writing stopped early: an error, or a reference that cannot be
/// followed (beyond the stream, or deeper than the fuel).
#[derive(Clone, Copy, PartialEq, Eq, Structural)]
enum Halt {
    Failed(TypeNameError),
    Stuck,
}

/// Writing took `before` to `after` and answered `r`, as `e` says.
spec fn wrote(before: Seq<char>, after: Seq<char>, r: Result<(), Halt>, e: Emitted) -> bool {
    match e {
        None => r == Err::<(), Halt>(Halt::Stuck),
        Some((t, err)) => after == before + t && match err {
            None => r == Ok::<(), Halt>(()),
            Some(x) => r == Err::<(), Halt>(Halt::Failed(x)),
        },
    }
}

proof fn lemma_then_ok(before: Seq<char>, mid: Seq<char>, after: Seq<char>, r2: Result<(), Halt>, a: Emitted, b: Emitted)
    requires
        wrote(before, mid, Ok(()), a),
        wrote(mid, after, r2, b),
    ensures
        wrote(before, after, r2, then(a, b)),
{
    match b {
        Some((u, _)) => {
            assert(after =~= before + ((a->0).0 + u));
        },
        None => {},
    }
}

proof fn lemma_then_stop(before: Seq<char>, mid: Seq<char>, r1: Result<(), Halt>, a: Emitted, b: Emitted)
    requires
        wrote(before, mid, r1, a),
        r1 is Err,
    ensures
        wrote(before, mid, r1, then(a, b)),
{
}

/// Appends a text that cannot fail.
fn put(w: &mut String, t: &str) -> (r: Result<(), Halt>)
    ensures
        wrote(old(w)@, final(w)@, r, lit(t@)),
{
    string_push_str(w, t);
    Ok(())
}

/// Appends nothing.
fn put_nothing(w: &String) -> (r: Result<(), Halt>)
    ensures
        wrote(w@, w@, r, lit(Seq::<char>::empty())),
{
    assert(w@ =~= w@ + Seq::<char>::empty());
    Ok(())
}

fn has_flag_exec(flags: u32, flag: u32) -> (b: bool)
    ensures
        b == has_flag(flags, flag),
{
    flags & flag != 0
}

/// Whether a text ends with `*` or `&`.
fn ends_with_sigil_exec(t: &str) -> (b: bool)
    ensures
        b == ends_with_sigil(t@),
{
    let n = t.unicode_len();
    if n == 0 {
        false
    } else {
        let c = t.get_char(n - 1);
        c == '*' || c == '&'
    }
}

/// Appends the bracketed counts of an array's dimensions; see `dims_text`.
fn emit_dims(w: &mut String, dims: &Vec<u32>, base_size: u32)
    ensures
        final(w)@ == old(w)@ + dims_text(dims@, base_size, dims@.len()),
{
    let ghost start = w@;
    let n = dims.len();
    let mut j: usize = 0;
    while j < n
        invariant
            n == dims@.len(),
            j <= n,
            w@ == start + dims_text(dims@, base_size, j as nat),
        decreases n - j,
    {
        let next = if j + 1 < n {
            dims[j + 1]
        } else {
            base_size
        };
        let ghost before = w@;
        if next != 0 {
            string_push_str(w, "[");
            push_decimal(w, (dims[j] / next) as u64);
            string_push_str(w, "]");
            assert(w@ =~= before + ("["@ + decimal((dims@[j as int] / next) as nat) + "]"@));
        } else {
            string_push_str(w, "[]");
        }
        assert(w@ =~= start + dims_text(dims@, base_size, (j + 1) as nat));
        j = j + 1;
    }
}

impl TypeFormatter {
    /// A formatter of these types and ids (by index) for a machine with this
    /// PE machine code.
    pub fn new(types: Vec<Option<TypeRecord>>, ids: Vec<Option<IdRecord>>, machine: u16, flags: u32) -> (f: Self)
        ensures
            f.table().wf(),
            f.table().types() == types@,
            f.table().ptr_size() == machine_pointer_size(machine),
            f.ids() == ids@,
            f.flags() == flags,
    {
        let ptr_size = pointer_size_for_machine(machine);
        TypeFormatter { table: TypeTable::new(types, ptr_size), ids, flags }
    }

    /// The size of the type at `index`; see `TypeTable::get_type_size`.
    pub fn get_type_size(&self, index: u32) -> (size: u32)
        requires
            self.table().size_is_defined(index),
        ensures
            forall|fuel: nat| #[trigger] self.table().size_within(index, fuel) matches Some(s) ==> size == s,
    {
        self.table.get_type_size(index)
    }

    fn exec_fuel(&self) -> (f: u64)
        ensures
            f as nat == self.fuel(),
    {
        let t = self.table.len() as u64;
        let i = self.ids.len() as u64;
        let sum = t.checked_add(i);
        let total = match sum {
            Some(s) => s.checked_add(1),
            None => None,
        };
        let scaled = match total {
            Some(x) => x.checked_mul(8),
            None => None,
        };
        match scaled {
            Some(v) => v,
            None => u64::MAX,
        }
    }

    fn emit_type_index(&self, w: &mut String, i: u32, fuel: u64) -> (r: Result<(), Halt>)
        ensures
            wrote(old(w)@, final(w)@, r, self.type_index_text(i, fuel as nat)),
        decreases fuel, 0nat,
    {
        if fuel == 0 {
            return Err(Halt::Stuck);
        }
        match self.table.record_at(i) {
            None => Err(Halt::Stuck),
            Some(None) => Err(Halt::Failed(TypeNameError::PdbError)),
            Some(Some(rec)) => self.emit_type(w, rec, fuel - 1),
        }
    }

    fn emit_type(&self, w: &mut String, rec: &TypeRecord, fuel: u64) -> (r: Result<(), Halt>)
        ensures
            wrote(old(w)@, final(w)@, r, self.type_text(*rec, fuel as nat)),
        decreases fuel, 0nat,
    {
        if fuel == 0 {
            return Err(Halt::Stuck);
        }
        let f = fuel - 1;
        let name_only = has_flag_exec(self.flags, NAME_ONLY);
        let ghost w0 = w@;
        match rec {
            TypeRecord::Primitive { indirect, kind } => {
                let t = emit_primitive(*kind, *indirect, false, has_flag_exec(self.flags, SPACE_BEFORE_POINTER));
                put(w, t.as_str())
            },
            TypeRecord::Class { kind, display_name, .. } => {
                if !name_only {
                    match kind {
                        ClassKind::Class => string_push_str(w, "class"),
                        ClassKind::Interface => string_push_str(w, "interface"),
                        ClassKind::Struct => string_push_str(w, "struct"),
                    }
                    string_push_str(w, " ");
                }
                string_push_str(w, display_name.as_str());
                assert(w@ =~= w0 + class_text(*kind, display_name@, name_only));
                Ok(())
            },
            TypeRecord::MemberFunction { return_type, class_type, this_pointer_type, argument_list, is_constructor } => {
                let ghost a = self.maybe_return_text(Some(*return_type), *is_constructor, f as nat);
                let ghost b = lit("()"@);
                let ghost c = self.method_args_text(*class_type, *this_pointer_type, *argument_list, false, f as nat);
                let r1 = self.emit_maybe_return(w, Some(*return_type), *is_constructor, f);
                if r1.is_err() {
                    proof {
                        lemma_then_stop(w0, w@, r1, a, b);
                        lemma_then_stop(w0, w@, r1, then(a, b), c);
                    }
                    return r1;
                }
                let ghost w1 = w@;
                let r2 = put(w, "()");
                proof {
                    lemma_then_ok(w0, w1, w@, r2, a, b);
                }
                let ghost w2 = w@;
                let r3 = self.emit_method_args(w, *class_type, *this_pointer_type, *argument_list, false, f);
                proof {
                    lemma_then_ok(w0, w2, w@, r3, then(a, b), c);
                }
                r3
            },
            TypeRecord::Procedure { return_type, argument_list, is_constructor } => {
                let ghost a = self.maybe_return_text(*return_type, *is_constructor, f as nat);
                let ghost b = lit("()("@);
                let ghost c = self.type_index_text(*argument_list, f as nat);
                let r1 = self.emit_maybe_return(w, *return_type, *is_constructor, f);
                if r1.is_err() {
                    proof {
                        lemma_then_stop(w0, w@, r1, a, b);
                        lemma_then_stop(w0, w@, r1, then(a, b), c);
                    }
                    return r1;
                }
                let ghost w1 = w@;
                let r2 = put(w, "()(");
                proof {
                    lemma_then_ok(w0, w1, w@, r2, a, b);
                }
                let ghost w2 = w@;
                let r3 = self.emit_type_index(w, *argument_list, f);
                proof {
                    lemma_then_ok(w0, w2, w@, r3, then(a, b), c);
                }
                r3
            },
            TypeRecord::ArgumentList { arguments } => self.emit_args(w, arguments, arguments.len(), false, f),
            TypeRecord::Pointer { is_const, mode, underlying_type, .. } => {
                let attrs = vec![PtrAttributes { is_pointer_const: *is_const, is_pointee_const: false, mode: *mode }];
                assert(attrs@ =~= seq![PtrAttributes { is_pointer_const: *is_const, is_pointee_const: false, mode: *mode }]);
                self.emit_ptr(w, attrs, *underlying_type, f)
            },
            TypeRecord::Array { dimensions, element_type } => {
                if dimensions.len() == 0 {
                    return Err(Halt::Stuck);
                }
                let dims = vec![dimensions[0]];
                assert(dims@ =~= seq![dimensions@[0]]);
                self.emit_array(w, dims, *element_type, f)
            },
            TypeRecord::Union { display_name, .. } => {
                let t = emit_named("union", display_name.as_str(), name_only);
                put(w, t.as_str())
            },
            TypeRecord::Enumeration { display_name, .. } => {
                let t = emit_named("enum", display_name.as_str(), name_only);
                put(w, t.as_str())
            },
            TypeRecord::Enumerate { display_name, .. } => {
                let t = emit_named("enum class", display_name.as_str(), name_only);
                put(w, t.as_str())
            },
            TypeRecord::Modifier { underlying_type, constant } => self.emit_modifier(w, *underlying_type, *constant, f),
            TypeRecord::Other { description } => {
                string_push_str(w, "unhandled type /* ");
                string_push_str(w, description.as_str());
                string_push_str(w, " */");
                assert(w@ =~= w0 + ("unhandled type /* "@ + description@ + " */"@));
                Ok(())
            },
        }
    }

    fn emit_return(&self, w: &mut String, return_type: Option<u32>, is_constructor: bool, fuel: u64) -> (r: Result<
        (),
        Halt,
    >)
        ensures
            wrote(old(w)@, final(w)@, r, self.return_text(return_type, is_constructor, fuel as nat)),
        decreases fuel, 0nat,
    {
        if fuel == 0 {
            return Err(Halt::Stuck);
        }
        match return_type {
            Some(t) => {
                if !is_constructor {
                    let ghost w0 = w@;
                    let ghost a = self.type_index_text(t, (fuel - 1) as nat);
                    let r1 = self.emit_type_index(w, t, fuel - 1);
                    if r1.is_err() {
                        proof {
                            lemma_then_stop(w0, w@, r1, a, lit(" "@));
                        }
                        return r1;
                    }
                    let ghost w1 = w@;
                    let r2 = put(w, " ");
                    proof {
                        lemma_then_ok(w0, w1, w@, r2, a, lit(" "@));
                    }
                    r2
                } else {
                    put_nothing(w)
                }
            },
            None => put_nothing(w),
        }
    }

    fn emit_maybe_return(&self, w: &mut String, return_type: Option<u32>, is_constructor: bool, fuel: u64) -> (r:
        Result<(), Halt>)
        ensures
            wrote(old(w)@, final(w)@, r, self.maybe_return_text(return_type, is_constructor, fuel as nat)),
        decreases fuel, 0nat,
    {
        if fuel == 0 {
            return Err(Halt::Stuck);
        }
        if has_flag_exec(self.flags, NO_FUNCTION_RETURN) {
            put_nothing(w)
        } else {
            self.emit_return(w, return_type, is_constructor, fuel - 1)
        }
    }

    fn emit_args(&self, w: &mut String, args: &Vec<u32>, k: usize, comma_before_first: bool, fuel: u64) -> (r: Result<
        (),
        Halt,
    >)
        requires
            k <= args@.len(),
        ensures
            wrote(old(w)@, final(w)@, r, self.args_text(args@, k as nat, comma_before_first, fuel as nat)),
        decreases fuel, k,
    {
        if fuel == 0 {
            return Err(Halt::Stuck);
        }
        if k == 0 {
            return put_nothing(w);
        }
        let j = k - 1;
        let ghost w0 = w@;
        let ghost sep = if j == 0 && !comma_before_first {
            Seq::<char>::empty()
        } else {
            comma_text(self.flags())
        };
        let ghost a = self.args_text(args@, j as nat, comma_before_first, fuel as nat);
        let ghost b = lit(sep);
        let ghost c = self.type_index_text(args@[j as int], (fuel - 1) as nat);
        let r1 = self.emit_args(w, args, j, comma_before_first, fuel);
        if r1.is_err() {
            proof {
                lemma_then_stop(w0, w@, r1, a, then(b, c));
            }
            return r1;
        }
        let ghost w1 = w@;
        let r2 = if j == 0 && !comma_before_first {
            put_nothing(w)
        } else if has_flag_exec(self.flags, SPACE_AFTER_COMMA) {
            put(w, ", ")
        } else {
            put(w, ",")
        };
        let ghost w2 = w@;
        let r3 = self.emit_type_index(w, args[j], fuel - 1);
        proof {
            lemma_then_ok(w1, w2, w@, r3, b, c);
            lemma_then_ok(w0, w1, w@, r3, a, then(b, c));
        }
        r3
    }

    fn this_constness_exec(&self, this: u32, class: u32) -> (r: Result<(bool, Option<u32>), Halt>)
        ensures
            match self.this_constness(this, class) {
                None => r == Err::<(bool, Option<u32>), Halt>(Halt::Stuck),
                Some(Err(e)) => r == Err::<(bool, Option<u32>), Halt>(Halt::Failed(e)),
                Some(Ok(v)) => r == Ok::<(bool, Option<u32>), Halt>(v),
            },
    {
        match self.table.record_at(this) {
            None => Err(Halt::Stuck),
            Some(None) => Err(Halt::Failed(TypeNameError::PdbError)),
            Some(Some(TypeRecord::Pointer { underlying_type, .. })) => {
                if *underlying_type == class {
                    Ok((false, None))
                } else {
                    match self.table.record_at(*underlying_type) {
                        None => Err(Halt::Stuck),
                        Some(None) => Err(Halt::Failed(TypeNameError::PdbError)),
                        Some(Some(TypeRecord::Modifier { underlying_type: m, constant })) => {
                            if *m == class {
                                Ok((*constant, None))
                            } else {
                                Ok((false, Some(this)))
                            }
                        },
                        Some(Some(_)) => Ok((false, Some(this))),
                    }
                }
            },
            Some(Some(_)) => Ok((false, Some(this))),
        }
    }

    fn emit_method_args(
        &self,
        w: &mut String,
        class_type: u32,
        this_pointer_type: Option<u32>,
        argument_list: u32,
        allow_const: bool,
        fuel: u64,
    ) -> (r: Result<(), Halt>)
        ensures
            wrote(
                old(w)@,
                final(w)@,
                r,
                self.method_args_text(class_type, this_pointer_type, argument_list, allow_const, fuel as nat),
            ),
        decreases fuel, 0nat,
    {
        if fuel == 0 {
            return Err(Halt::Stuck);
        }
        let f = fuel - 1;
        match self.table.record_at(argument_list) {
            None => Err(Halt::Stuck),
            Some(None) => Err(Halt::Failed(TypeNameError::PdbError)),
            Some(Some(TypeRecord::ArgumentList { arguments })) => {
                let c = match this_pointer_type {
                    None => Ok((false, None)),
                    Some(this) => self.this_constness_exec(this, class_type),
                };
                let (is_const, extra) = match c {
                    Err(h) => {
                        return Err(h);
                    },
                    Ok(v) => v,
                };
                let ghost w0 = w@;
                let ghost list = match extra {
                    Some(first) => then(
                        self.type_index_text(first, f as nat),
                        self.args_text(arguments@, arguments@.len(), true, f as nat),
                    ),
                    None => self.args_text(arguments@, arguments@.len(), false, f as nat),
                };
                let ghost close = lit(
                    ")"@ + if is_const && allow_const {
                        " const"@
                    } else {
                        Seq::<char>::empty()
                    },
                );
                let r0 = put(w, "(");
                let ghost w1 = w@;
                let r1 = match extra {
                    Some(first) => {
                        let ghost a = self.type_index_text(first, f as nat);
                        let ghost b = self.args_text(arguments@, arguments@.len(), true, f as nat);
                        let ra = self.emit_type_index(w, first, f);
                        if ra.is_err() {
                            proof {
                                lemma_then_stop(w1, w@, ra, a, b);
                            }
                            ra
                        } else {
                            let ghost wa = w@;
                            let rb = self.emit_args(w, arguments, arguments.len(), true, f);
                            proof {
                                lemma_then_ok(w1, wa, w@, rb, a, b);
                            }
                            rb
                        }
                    },
                    None => self.emit_args(w, arguments, arguments.len(), false, f),
                };
                if r1.is_err() {
                    proof {
                        lemma_then_stop(w1, w@, r1, list, close);
                        lemma_then_ok(w0, w1, w@, r1, lit("("@), then(list, close));
                    }
                    return r1;
                }
                let ghost w2 = w@;
                string_push_str(w, ")");
                if is_const && allow_const {
                    string_push_str(w, " const");
                }
                let r2: Result<(), Halt> = Ok(());
                proof {
                    assert(wrote(w2, w@, r2, close)) by {
                        assert(w@ =~= w2 + (close->0).0);
                    }
                    lemma_then_ok(w1, w2, w@, r2, list, close);
                    lemma_then_ok(w0, w1, w@, r2, lit("("@), then(list, close));
                }
                r2
            },
            Some(Some(_)) => Err(Halt::Failed(TypeNameError::ArgumentTypeNotArgumentList)),
        }
    }
}


/// What a caller learns of writing that ended with `h`.
fn to_outcome(h: Result<(), Halt>) -> (r: Option<Result<(), TypeNameError>>)
    ensures
        forall|before: Seq<char>, after: Seq<char>, e: Emitted| #[trigger] wrote(before, after, h, e) ==> r == outcome(e),
{
    match h {
        Ok(()) => Some(Ok(())),
        Err(Halt::Failed(e)) => Some(Err(e)),
        Err(Halt::Stuck) => None,
    }
}

/// Appends a function's name, or a placeholder where it is empty.
fn put_name(w: &mut String, name: &str) -> (r: Result<(), Halt>)
    ensures
        wrote(old(w)@, final(w)@, r, lit(name_text(name@))),
{
    if name.unicode_len() == 0 {
        put(w, "<name omitted>")
    } else {
        put(w, name)
    }
}

impl TypeFormatter {
    fn emit_ptr(&self, w: &mut String, attrs: Vec<PtrAttributes>, underlying: u32, fuel: u64) -> (r: Result<(), Halt>)
        requires
            attrs@.len() > 0,
        ensures
            wrote(old(w)@, final(w)@, r, self.ptr_text(attrs@, underlying, fuel as nat)),
        decreases fuel, 0nat,
    {
        if fuel == 0 {
            return Err(Halt::Stuck);
        }
        let f = fuel - 1;
        match self.table.record_at(underlying) {
            None => Err(Halt::Stuck),
            Some(None) => Err(Halt::Failed(TypeNameError::PdbError)),
            Some(Some(TypeRecord::Pointer { is_const, mode, underlying_type, .. })) => {
                let mut a = attrs;
                a.push(PtrAttributes { is_pointer_const: *is_const, is_pointee_const: false, mode: *mode });
                self.emit_ptr(w, a, *underlying_type, f)
            },
            Some(Some(TypeRecord::Modifier { underlying_type, constant })) => {
                let mut a = attrs;
                let n = a.len();
                let last = a[n - 1];
                a.set(n - 1, PtrAttributes { is_pointer_const: last.is_pointer_const, is_pointee_const: *constant, mode: last.mode });
                match self.table.record_at(*underlying_type) {
                    None => Err(Halt::Stuck),
                    Some(None) => Err(Halt::Failed(TypeNameError::PdbError)),
                    Some(Some(TypeRecord::Pointer { is_const, mode, underlying_type: u2, .. })) => {
                        a.push(PtrAttributes { is_pointer_const: *is_const, is_pointee_const: false, mode: *mode });
                        self.emit_ptr(w, a, *u2, f)
                    },
                    Some(Some(r2)) => self.emit_ptr_helper(w, a, r2, f),
                }
            },
            Some(Some(rec)) => self.emit_ptr_helper(w, attrs, rec, f),
        }
    }

    #[verifier::spinoff_prover]
    #[verifier::rlimit(40)]
    fn emit_ptr_helper(&self, w: &mut String, attrs: Vec<PtrAttributes>, rec: &TypeRecord, fuel: u64) -> (r: Result<
        (),
        Halt,
    >)
        ensures
            wrote(old(w)@, final(w)@, r, self.ptr_helper(attrs@, *rec, fuel as nat)),
        decreases fuel, 0nat,
    {
        if fuel == 0 {
            return Err(Halt::Stuck);
        }
        let f = fuel - 1;
        let sbp = has_flag_exec(self.flags, SPACE_BEFORE_POINTER);
        let ghost w0 = w@;
        match rec {
            TypeRecord::MemberFunction { return_type, class_type, this_pointer_type, argument_list, is_constructor } => {
                let ghost x1 = self.return_text(Some(*return_type), *is_constructor, f as nat);
                let ghost x2 = lit("("@);
                let ghost x3 = self.type_index_text(*class_type, f as nat);
                let ghost x4 = lit(attributes_text(attrs@, attrs@.len(), false, false, sbp) + ")"@);
                let ghost x5 = self.method_args_text(*class_type, *this_pointer_type, *argument_list, false, f as nat);
                let ghost t4 = then(x4, x5);
                let ghost t3 = then(x3, t4);
                let ghost t2 = then(x2, t3);
                let r1 = self.emit_return(w, Some(*return_type), *is_constructor, f);
                if r1.is_err() {
                    proof {
                        lemma_then_stop(w0, w@, r1, x1, t2);
                    }
                    return r1;
                }
                let ghost w1 = w@;
                let r2 = put(w, "(");
                let ghost w2 = w@;
                let r3 = self.emit_type_index(w, *class_type, f);
                if r3.is_err() {
                    proof {
                        lemma_then_stop(w2, w@, r3, x3, t4);
                        lemma_then_ok(w1, w2, w@, r3, x2, t3);
                        lemma_then_ok(w0, w1, w@, r3, x1, t2);
                    }
                    return r3;
                }
                let ghost w3 = w@;
                let text = emit_attributes(attrs.as_slice(), sbp, false, false);
                string_push_str(w, text.as_str());
                string_push_str(w, ")");
                let r4: Result<(), Halt> = Ok(());
                proof {
                    assert(wrote(w3, w@, r4, x4)) by {
                        assert(w@ =~= w3 + (x4->0).0);
                    }
                }
                let ghost w4 = w@;
                let r5 = self.emit_method_args(w, *class_type, *this_pointer_type, *argument_list, false, f);
                proof {
                    lemma_then_ok(w3, w4, w@, r5, x4, x5);
                    lemma_then_ok(w2, w3, w@, r5, x3, t4);
                    lemma_then_ok(w1, w2, w@, r5, x2, t3);
                    lemma_then_ok(w0, w1, w@, r5, x1, t2);
                }
                r5
            },
            TypeRecord::Procedure { return_type, argument_list, is_constructor } => {
                let ghost x1 = self.return_text(*return_type, *is_constructor, f as nat);
                let ghost x2 = lit("("@ + attributes_text(attrs@, attrs@.len(), false, false, sbp) + ")("@);
                let ghost x3 = self.type_index_text(*argument_list, f as nat);
                let ghost x4 = lit(")"@);
                let ghost t3 = then(x3, x4);
                let ghost t2 = then(x2, t3);
                let r1 = self.emit_return(w, *return_type, *is_constructor, f);
                if r1.is_err() {
                    proof {
                        lemma_then_stop(w0, w@, r1, x1, t2);
                    }
                    return r1;
                }
                let ghost w1 = w@;
                string_push_str(w, "(");
                let text = emit_attributes(attrs.as_slice(), sbp, false, false);
                string_push_str(w, text.as_str());
                string_push_str(w, ")(");
                let r2: Result<(), Halt> = Ok(());
                proof {
                    assert(wrote(w1, w@, r2, x2)) by {
                        assert(w@ =~= w1 + (x2->0).0);
                    }
                }
                let ghost w2 = w@;
                let r3 = self.emit_type_index(w, *argument_list, f);
                if r3.is_err() {
                    proof {
                        lemma_then_stop(w2, w@, r3, x3, x4);
                        lemma_then_ok(w1, w2, w@, r3, x2, t3);
                        lemma_then_ok(w0, w1, w@, r3, x1, t2);
                    }
                    return r3;
                }
                let ghost w3 = w@;
                let r4 = put(w, ")");
                proof {
                    lemma_then_ok(w2, w3, w@, r4, x3, x4);
                    lemma_then_ok(w1, w2, w@, r4, x2, t3);
                    lemma_then_ok(w0, w1, w@, r4, x1, t2);
                }
                r4
            },
            _ => {
                let mut buf = String::new();
                let rb = self.emit_type(&mut buf, rec, f);
                match rb {
                    Err(Halt::Stuck) => Err(Halt::Stuck),
                    Err(Halt::Failed(e)) => {
                        assert(w@ =~= w@ + Seq::<char>::empty());
                        Err(Halt::Failed(e))
                    },
                    Ok(()) => {
                        let prev = ends_with_sigil_exec(buf.as_str());
                        let text = emit_attributes(attrs.as_slice(), sbp, true, prev);
                        string_push_str(w, buf.as_str());
                        string_push_str(w, text.as_str());
                        assert(buf@ =~= Seq::<char>::empty() + buf@);
                        assert(w@ =~= w0 + (buf@ + text@));
                        Ok(())
                    },
                }
            },
        }
    }

    fn emit_array(&self, w: &mut String, dims: Vec<u32>, element_type: u32, fuel: u64) -> (r: Result<(), Halt>)
        ensures
            wrote(old(w)@, final(w)@, r, self.array_text(dims@, element_type, fuel as nat)),
        decreases fuel, 0nat,
    {
        if fuel == 0 {
            return Err(Halt::Stuck);
        }
        let f = fuel - 1;
        match self.table.record_at(element_type) {
            None => Err(Halt::Stuck),
            Some(None) => Err(Halt::Failed(TypeNameError::PdbError)),
            Some(Some(TypeRecord::Array { dimensions, element_type: e2 })) => {
                if dimensions.len() == 0 {
                    return Err(Halt::Stuck);
                }
                let mut d = dims;
                d.push(dimensions[0]);
                self.emit_array(w, d, *e2, f)
            },
            Some(Some(base)) => {
                let size = match self.table.data_size_of(base) {
                    DataSize::Bytes(b) => b,
                    DataSize::SizeOfType(u) => match self.table.size_within_fuel(u, self.exec_fuel()) {
                        Some(s) => s,
                        None => {
                            return Err(Halt::Stuck);
                        },
                    },
                };
                let ghost w0 = w@;
                let ghost x1 = self.type_text(*base, f as nat);
                let ghost x2 = lit(dims_text(dims@, size, dims@.len()));
                let r1 = self.emit_type(w, base, f);
                if r1.is_err() {
                    proof {
                        lemma_then_stop(w0, w@, r1, x1, x2);
                    }
                    return r1;
                }
                let ghost w1 = w@;
                emit_dims(w, &dims, size);
                let r2: Result<(), Halt> = Ok(());
                proof {
                    lemma_then_ok(w0, w1, w@, r2, x1, x2);
                }
                r2
            },
        }
    }

    fn emit_modifier(&self, w: &mut String, underlying: u32, constant: bool, fuel: u64) -> (r: Result<(), Halt>)
        ensures
            wrote(old(w)@, final(w)@, r, self.modifier_text(underlying, constant, fuel as nat)),
        decreases fuel, 0nat,
    {
        if fuel == 0 {
            return Err(Halt::Stuck);
        }
        let f = fuel - 1;
        match self.table.record_at(underlying) {
            None => Err(Halt::Stuck),
            Some(None) => Err(Halt::Failed(TypeNameError::PdbError)),
            Some(Some(TypeRecord::Pointer { is_const, mode, underlying_type, .. })) => {
                let attrs = vec![PtrAttributes { is_pointer_const: *is_const || constant, is_pointee_const: false, mode: *mode }];
                assert(attrs@ =~= seq![PtrAttributes { is_pointer_const: *is_const || constant, is_pointee_const: false, mode: *mode }]);
                self.emit_ptr(w, attrs, *underlying_type, f)
            },
            Some(Some(TypeRecord::Primitive { indirect, kind })) => {
                let t = emit_primitive(*kind, *indirect, constant, has_flag_exec(self.flags, SPACE_BEFORE_POINTER));
                put(w, t.as_str())
            },
            Some(Some(rec)) => {
                let ghost w0 = w@;
                let ghost x1 = lit(
                    if constant {
                        "const "@
                    } else {
                        Seq::<char>::empty()
                    },
                );
                let ghost x2 = self.type_text(*rec, f as nat);
                let r1 = if constant {
                    put(w, "const ")
                } else {
                    put_nothing(w)
                };
                let ghost w1 = w@;
                let r2 = self.emit_type(w, rec, f);
                proof {
                    lemma_then_ok(w0, w1, w@, r2, x1, x2);
                }
                r2
            },
        }
    }

    #[verifier::spinoff_prover]
    #[verifier::rlimit(40)]
    fn emit_function(&self, w: &mut String, name: &str, function_type_index: u32, fuel: u64) -> (r: Result<(), Halt>)
        ensures
            wrote(old(w)@, final(w)@, r, self.function_text(name@, function_type_index, fuel as nat)),
    {
        if function_type_index == 0 {
            return put_name(w, name);
        }
        let ghost w0 = w@;
        match self.table.record_at(function_type_index) {
            None => Err(Halt::Stuck),
            Some(None) => Err(Halt::Failed(TypeNameError::PdbError)),
            Some(Some(TypeRecord::MemberFunction { return_type, class_type, this_pointer_type, argument_list, is_constructor })) => {
                let ghost x1 = lit(static_text(this_pointer_type is None, self.flags()));
                let ghost x2 = self.maybe_return_text(Some(*return_type), *is_constructor, fuel as nat);
                let ghost x3 = lit(name_text(name@));
                let ghost x4 = self.method_args_text(*class_type, *this_pointer_type, *argument_list, true, fuel as nat);
                let ghost t3 = then(x3, x4);
                let ghost t2 = then(x2, t3);
                let r1 = if this_pointer_type.is_none() && !has_flag_exec(self.flags, NO_MEMBER_FUNCTION_STATIC) {
                    put(w, "static ")
                } else {
                    put_nothing(w)
                };
                let ghost w1 = w@;
                let r2 = self.emit_maybe_return(w, Some(*return_type), *is_constructor, fuel);
                if r2.is_err() {
                    proof {
                        lemma_then_stop(w1, w@, r2, x2, t3);
                        lemma_then_ok(w0, w1, w@, r2, x1, t2);
                    }
                    return r2;
                }
                let ghost w2 = w@;
                let r3 = put_name(w, name);
                let ghost w3 = w@;
                let r4 = self.emit_method_args(w, *class_type, *this_pointer_type, *argument_list, true, fuel);
                proof {
                    lemma_then_ok(w2, w3, w@, r4, x3, x4);
                    lemma_then_ok(w1, w2, w@, r4, x2, t3);
                    lemma_then_ok(w0, w1, w@, r4, x1, t2);
                }
                r4
            },
            Some(Some(TypeRecord::Procedure { return_type, argument_list, is_constructor })) => {
                let ghost x1 = self.maybe_return_text(*return_type, *is_constructor, fuel as nat);
                let ghost x2 = lit(name_text(name@) + "("@);
                let ghost x3 = self.type_index_text(*argument_list, fuel as nat);
                let ghost x4 = lit(")"@);
                let ghost t3 = then(x3, x4);
                let ghost t2 = then(x2, t3);
                let r1 = self.emit_maybe_return(w, *return_type, *is_constructor, fuel);
                if r1.is_err() {
                    proof {
                        lemma_then_stop(w0, w@, r1, x1, t2);
                    }
                    return r1;
                }
                let ghost w1 = w@;
                let rn = put_name(w, name);
                string_push_str(w, "(");
                let r2: Result<(), Halt> = Ok(());
                proof {
                    assert(wrote(w1, w@, r2, x2)) by {
                        assert(w@ =~= w1 + (x2->0).0);
                    }
                }
                let ghost w2 = w@;
                let r3 = self.emit_type_index(w, *argument_list, fuel);
                if r3.is_err() {
                    proof {
                        lemma_then_stop(w2, w@, r3, x3, x4);
                        lemma_then_ok(w1, w2, w@, r3, x2, t3);
                        lemma_then_ok(w0, w1, w@, r3, x1, t2);
                    }
                    return r3;
                }
                let ghost w3 = w@;
                let r4 = put(w, ")");
                proof {
                    lemma_then_ok(w2, w3, w@, r4, x3, x4);
                    lemma_then_ok(w1, w2, w@, r4, x2, t3);
                    lemma_then_ok(w0, w1, w@, r4, x1, t2);
                }
                r4
            },
            Some(Some(_)) => put(w, name),
        }
    }

    #[verifier::spinoff_prover]
    #[verifier::rlimit(80)]
    fn emit_id(&self, w: &mut String, id: u32, fuel: u64) -> (r: Result<(), Halt>)
        ensures
            wrote(old(w)@, final(w)@, r, self.id_text(id, fuel as nat)),
        decreases fuel,
    {
        if fuel == 0 {
            return Err(Halt::Stuck);
        }
        let f = fuel - 1;
        let ghost w0 = w@;
        if (id as usize) >= self.ids.len() {
            return Err(Halt::Stuck);
        }
        match &self.ids[id as usize] {
            None => Err(Halt::Failed(TypeNameError::PdbError)),
            Some(IdRecord::MemberFunction { name, parent, function_type }) => {
                match self.table.record_at(*function_type) {
                    None => Err(Halt::Stuck),
                    Some(None) => Err(Halt::Failed(TypeNameError::PdbError)),
                    Some(Some(TypeRecord::MemberFunction { return_type, class_type, this_pointer_type, argument_list, is_constructor })) => {
                        let ghost x1 = lit(static_text(this_pointer_type is None, self.flags()));
                        let ghost x2 = self.maybe_return_text(Some(*return_type), *is_constructor, f as nat);
                        let ghost x3 = self.type_index_text(*parent, f as nat);
                        let ghost x4 = lit("::"@ + name_text(name@));
                        let ghost x5 = self.method_args_text(*class_type, *this_pointer_type, *argument_list, true, f as nat);
                        let ghost t4 = then(x4, x5);
                        let ghost t3 = then(x3, t4);
                        let ghost t2 = then(x2, t3);
                        let r1 = if this_pointer_type.is_none() && !has_flag_exec(self.flags, NO_MEMBER_FUNCTION_STATIC) {
                            put(w, "static ")
                        } else {
                            put_nothing(w)
                        };
                        let ghost w1 = w@;
                        let r2 = self.emit_maybe_return(w, Some(*return_type), *is_constructor, f);
                        if r2.is_err() {
                            proof {
                                lemma_then_stop(w1, w@, r2, x2, t3);
                                lemma_then_ok(w0, w1, w@, r2, x1, t2);
                            }
                            return r2;
                        }
                        let ghost w2 = w@;
                        let r3 = self.emit_type_index(w, *parent, f);
                        if r3.is_err() {
                            proof {
                                lemma_then_stop(w2, w@, r3, x3, t4);
                                lemma_then_ok(w1, w2, w@, r3, x2, t3);
                                lemma_then_ok(w0, w1, w@, r3, x1, t2);
                            }
                            return r3;
                        }
                        let ghost w3 = w@;
                        string_push_str(w, "::");
                        let rn = put_name(w, name.as_str());
                        let r4: Result<(), Halt> = Ok(());
                        proof {
                            assert(wrote(w3, w@, r4, x4)) by {
                                assert(w@ =~= w3 + (x4->0).0);
                            }
                        }
                        let ghost w4 = w@;
                        let r5 = self.emit_method_args(w, *class_type, *this_pointer_type, *argument_list, true, f);
                        proof {
                            lemma_then_ok(w3, w4, w@, r5, x4, x5);
                            lemma_then_ok(w2, w3, w@, r5, x3, t4);
                            lemma_then_ok(w1, w2, w@, r5, x2, t3);
                            lemma_then_ok(w0, w1, w@, r5, x1, t2);
                        }
                        r5
                    },
                    Some(Some(_)) => Err(Halt::Failed(TypeNameError::MemberFunctionIdIsNotMemberFunctionType)),
                }
            },
            Some(IdRecord::Function { name, scope, function_type }) => {
                match self.table.record_at(*function_type) {
                    None => Err(Halt::Stuck),
                    Some(None) => Err(Halt::Failed(TypeNameError::PdbError)),
                    Some(Some(TypeRecord::Procedure { return_type, argument_list, is_constructor })) => {
                        let ghost x1 = self.maybe_return_text(*return_type, *is_constructor, f as nat);
                        let ghost x2 = match *scope {
                            Some(sc) => then(self.id_text(sc, f as nat), lit("::"@)),
                            None => lit(Seq::<char>::empty()),
                        };
                        let ghost x3 = lit(name_text(name@) + "("@);
                        let ghost x4 = self.type_index_text(*argument_list, f as nat);
                        let ghost x5 = lit(")"@);
                        let ghost t4 = then(x4, x5);
                        let ghost t3 = then(x3, t4);
                        let ghost t2 = then(x2, t3);
                        let r1 = self.emit_maybe_return(w, *return_type, *is_constructor, f);
                        if r1.is_err() {
                            proof {
                                lemma_then_stop(w0, w@, r1, x1, t2);
                            }
                            return r1;
                        }
                        let ghost w1 = w@;
                        let r2 = match scope {
                            Some(sc) => {
                                let rs = self.emit_id(w, *sc, f);
                                if rs.is_err() {
                                    proof {
                                        lemma_then_stop(w1, w@, rs, self.id_text(*sc, f as nat), lit("::"@));
                                    }
                                    rs
                                } else {
                                    let ghost ws = w@;
                                    let rc = put(w, "::");
                                    proof {
                                        lemma_then_ok(w1, ws, w@, rc, self.id_text(*sc, f as nat), lit("::"@));
                                    }
                                    rc
                                }
                            },
                            None => put_nothing(w),
                        };
                        if r2.is_err() {
                            proof {
                                lemma_then_stop(w1, w@, r2, x2, t3);
                                lemma_then_ok(w0, w1, w@, r2, x1, t2);
                            }
                            return r2;
                        }
                        let ghost w2 = w@;
                        let rn = put_name(w, name.as_str());
                        string_push_str(w, "(");
                        let r3: Result<(), Halt> = Ok(());
                        proof {
                            assert(wrote(w2, w@, r3, x3)) by {
                                assert(w@ =~= w2 + (x3->0).0);
                            }
                        }
                        let ghost w3 = w@;
                        let r4 = self.emit_type_index(w, *argument_list, f);
                        if r4.is_err() {
                            proof {
                                lemma_then_stop(w3, w@, r4, x4, x5);
                                lemma_then_ok(w2, w3, w@, r4, x3, t4);
                                lemma_then_ok(w1, w2, w@, r4, x2, t3);
                                lemma_then_ok(w0, w1, w@, r4, x1, t2);
                            }
                            return r4;
                        }
                        let ghost w4 = w@;
                        let r5 = put(w, ")");
                        proof {
                            lemma_then_ok(w3, w4, w@, r5, x4, x5);
                            lemma_then_ok(w2, w3, w@, r5, x3, t4);
                            lemma_then_ok(w1, w2, w@, r5, x2, t3);
                            lemma_then_ok(w0, w1, w@, r5, x1, t2);
                        }
                        r5
                    },
                    Some(Some(_)) => Err(Halt::Failed(TypeNameError::FunctionIdIsNotProcedureType)),
                }
            },
            Some(IdRecord::String { name }) => put(w, name.as_str()),
            Some(IdRecord::Other { description }) => {
                string_push_str(w, "<unhandled id scope ");
                string_push_str(w, description.as_str());
                string_push_str(w, ">::");
                assert(w@ =~= w0 + ("<unhandled id scope "@ + description@ + ">::"@));
                Ok(())
            },
        }
    }

    /// Writes a function's signature after `w`'s text, from its name and the
    /// index of its type; see `function_text`. `None` where a type index lies
    /// beyond the stream or the references go round in a loop, where
    /// nothing is said of what was written; else whether the signature was
    /// written in full, with the text written either way.
    pub fn write_function(&self, w: &mut String, name: &str, function_type_index: u32) -> (r: Option<
        Result<(), TypeNameError>,
    >)
        ensures
            r == outcome(self.function_text(name@, function_type_index, self.fuel())),
            self.function_text(name@, function_type_index, self.fuel()) matches Some((t, _)) ==> final(w)@ == old(w)@ + t,
    {
        let fuel = self.exec_fuel();
        let h = self.emit_function(w, name, function_type_index, fuel);
        to_outcome(h)
    }

    /// Writes the name of the function that an id record names after `w`'s
    /// text; see `id_text`. `None` where an index lies beyond its stream or
    /// the references go round in a loop, where nothing is said of what was
    /// written; else whether the name was written in full, with the text
    /// written either way.
    pub fn write_id(&self, w: &mut String, id: u32) -> (r: Option<Result<(), TypeNameError>>)
        ensures
            r == outcome(self.id_text(id, self.fuel())),
            self.id_text(id, self.fuel()) matches Some((t, _)) ==> final(w)@ == old(w)@ + t,
    {
        let fuel = self.exec_fuel();
        let h = self.emit_id(w, id, fuel);
        to_outcome(h)
    }
}

} // verus!
