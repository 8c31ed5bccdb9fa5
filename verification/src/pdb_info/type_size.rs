//! The sizes of the types that PDB type records describe, and the two
//! readers of a PDB's type stream that look them up by type index.
use crate::macho::bytes_eq;
use crate::pdb_info::type_names::PointerMode;
use vstd::prelude::*;

verus! {

/// The kind of a primitive type of a PDB.
#[derive(Clone, Copy, Debug, PartialEq, Eq, Structural)]
pub enum PrimitiveKind {
    NoType,
    Void,
    Char,
    UChar,
    RChar,
    WChar,
    RChar16,
    RChar32,
    I8,
    U8,
    Short,
    UShort,
    I16,
    U16,
    Long,
    ULong,
    I32,
    U32,
    Quad,
    UQuad,
    I64,
    U64,
    Octa,
    UOcta,
    I128,
    U128,
    F16,
    F32,
    F32PP,
    F48,
    F64,
    F80,
    F128,
    Complex32,
    Complex64,
    Complex80,
    Complex128,
    Bool8,
    Bool16,
    Bool32,
    Bool64,
    HRESULT,
}

/// A constant value of an enumerate.
#[derive(Clone, Copy, Debug, PartialEq, Eq, Structural)]
pub enum Variant {
    U8(u8),
    U16(u16),
    U32(u32),
    U64(u64),
    I8(i8),
    I16(i16),
    I32(i32),
    I64(i64),
}

/// The kind of a class type.
#[derive(Clone, Copy, Debug, PartialEq, Eq, Structural)]
pub enum ClassKind {
    Class,
    Interface,
    Struct,
}

/// A type record of a PDB's type stream, as far as the sizes and names of
/// types go. A class or union is named for its size by its unique name where
/// it has one, else by its name (`name`), and is written by its name
/// (`display_name`); the size of one that is a forward reference comes from
/// the last record of the same name that is not one. Type indices name other
/// records of the stream.
#[allow(inconsistent_fields)]
pub enum TypeRecord {
    Primitive { indirect: bool, kind: PrimitiveKind },
    Class { forward_reference: bool, size: u16, name: Vec<u8>, kind: ClassKind, display_name: String },
    MemberFunction {
        return_type: u32,
        class_type: u32,
        this_pointer_type: Option<u32>,
        argument_list: u32,
        is_constructor: bool,
    },
    Procedure { return_type: Option<u32>, argument_list: u32, is_constructor: bool },
    Pointer { size: u8, is_const: bool, mode: PointerMode, underlying_type: u32 },
    Array { dimensions: Vec<u32>, element_type: u32 },
    Union { forward_reference: bool, size: u32, name: Vec<u8>, display_name: String },
    Enumeration { underlying_type: u32, display_name: String },
    Enumerate { value: Variant, display_name: String },
    Modifier { underlying_type: u32, constant: bool },
    ArgumentList { arguments: Vec<u32> },
    /// Any other record, with its description.
    Other { description: String },
}

/// The size of a type: a number of bytes, or that of another type.
#[derive(Clone, Copy, Debug, PartialEq, Eq, Structural)]
pub enum DataSize {
    Bytes(u32),
    SizeOfType(u32),
}

/// The size in bytes of a value of a primitive kind.
pub open spec fn primitive_kind_size(kind: PrimitiveKind) -> u32 {
    match kind {
        PrimitiveKind::NoType
        | PrimitiveKind::Void => 0,
        PrimitiveKind::Char
        | PrimitiveKind::UChar
        | PrimitiveKind::RChar
        | PrimitiveKind::I8
        | PrimitiveKind::U8
        | PrimitiveKind::Bool8 => 1,
        PrimitiveKind::WChar
        | PrimitiveKind::RChar16
        | PrimitiveKind::Short
        | PrimitiveKind::UShort
        | PrimitiveKind::I16
        | PrimitiveKind::U16
        | PrimitiveKind::F16
        | PrimitiveKind::Bool16 => 2,
        PrimitiveKind::RChar32
        | PrimitiveKind::Long
        | PrimitiveKind::ULong
        | PrimitiveKind::I32
        | PrimitiveKind::U32
        | PrimitiveKind::F32
        | PrimitiveKind::F32PP
        | PrimitiveKind::Bool32
        | PrimitiveKind::HRESULT => 4,
        PrimitiveKind::F48 => 6,
        PrimitiveKind::Quad
        | PrimitiveKind::UQuad
        | PrimitiveKind::I64
        | PrimitiveKind::U64
        | PrimitiveKind::F64
        | PrimitiveKind::Complex32
        | PrimitiveKind::Bool64 => 8,
        PrimitiveKind::F80 => 10,
        PrimitiveKind::Octa
        | PrimitiveKind::UOcta
        | PrimitiveKind::I128
        | PrimitiveKind::U128
        | PrimitiveKind::F128
        | PrimitiveKind::Complex64 => 16,
        PrimitiveKind::Complex80 => 20,
        PrimitiveKind::Complex128 => 32,
    }
}

/// The size in bytes of an enumerate's value.
pub open spec fn variant_size(value: Variant) -> u32 {
    match value {
        Variant::I8(_) | Variant::U8(_) => 1,
        Variant::I16(_) | Variant::U16(_) => 2,
        Variant::I32(_) | Variant::U32(_) => 4,
        Variant::I64(_) | Variant::U64(_) => 8,
    }
}

/// The size that the last entry named `name` records, if any.
pub open spec fn forward_ref_size(fwd: Seq<(Seq<u8>, u32)>, name: Seq<u8>) -> Option<u32>
    decreases fwd.len(),
{
    if fwd.len() == 0 {
        None
    } else if fwd.last().0 == name {
        Some(fwd.last().1)
    } else {
        forward_ref_size(fwd.drop_last(), name)
    }
}

/// The size of a class or union: for a forward reference, that which `fwd`
/// records for its name, when it records one.
pub open spec fn forward_ref_aware_size(forward_reference: bool, size: u32, name: Seq<u8>, fwd: Seq<(Seq<u8>, u32)>) -> u32 {
    if forward_reference && forward_ref_size(fwd, name) is Some {
        forward_ref_size(fwd, name)->0
    } else {
        size
    }
}

/// The size of the type that a record describes, where pointers take
/// `ptr_size` bytes and `fwd` gives the sizes of named classes and unions.
pub open spec fn record_size(record: TypeRecord, ptr_size: u32, fwd: Seq<(Seq<u8>, u32)>) -> DataSize {
    match record {
        TypeRecord::Primitive { indirect, kind } => if indirect {
            DataSize::Bytes(ptr_size)
        } else {
            DataSize::Bytes(primitive_kind_size(kind))
        },
        TypeRecord::Class { forward_reference, size, name, .. } => DataSize::Bytes(
            forward_ref_aware_size(forward_reference, size as u32, name@, fwd),
        ),
        TypeRecord::MemberFunction { .. } => DataSize::Bytes(ptr_size),
        TypeRecord::Procedure { .. } => DataSize::Bytes(ptr_size),
        TypeRecord::Pointer { size, .. } => DataSize::Bytes(size as u32),
        TypeRecord::Array { dimensions, .. } => DataSize::Bytes(dimensions@.last()),
        TypeRecord::Union { forward_reference, size, name, .. } => DataSize::Bytes(
            forward_ref_aware_size(forward_reference, size, name@, fwd),
        ),
        TypeRecord::Enumeration { underlying_type, .. } => DataSize::SizeOfType(underlying_type),
        TypeRecord::Enumerate { value, .. } => DataSize::Bytes(variant_size(value)),
        TypeRecord::Modifier { underlying_type, .. } => DataSize::SizeOfType(underlying_type),
        TypeRecord::ArgumentList { .. } | TypeRecord::Other { .. } => DataSize::Bytes(0),
    }
}

/// The entries of a size table with their names as byte sequences.
pub open spec fn fwd_view(fwd: Seq<(Vec<u8>, u32)>) -> Seq<(Seq<u8>, u32)> {
    fwd.map_values(|e: (Vec<u8>, u32)| (e.0@, e.1))
}

/// Arrays have at least one dimension.
pub open spec fn record_is_well_formed(record: TypeRecord) -> bool {
    record matches TypeRecord::Array { dimensions, .. } ==> dimensions@.len() > 0
}

/// The size of the type that a record describes, where pointers take
/// `ptr_size` bytes and `forward_ref_sizes` gives the sizes of named classes
/// and unions: the size of an enumeration or a modified type is that of its
/// underlying type, which the caller looks up.
pub fn get_data_size(record: &TypeRecord, ptr_size: u32, forward_ref_sizes: &[(Vec<u8>, u32)]) -> (r: DataSize)
    requires
        record_is_well_formed(*record),
    ensures
        r == record_size(*record, ptr_size, fwd_view(forward_ref_sizes@)),
{
    match record {
        TypeRecord::Primitive { indirect, kind } => {
            if *indirect {
                return DataSize::Bytes(ptr_size);
            }
            DataSize::Bytes(
                match kind {
                    PrimitiveKind::NoType
                    | PrimitiveKind::Void => 0,
                    PrimitiveKind::Char
                    | PrimitiveKind::UChar
                    | PrimitiveKind::RChar
                    | PrimitiveKind::I8
                    | PrimitiveKind::U8
                    | PrimitiveKind::Bool8 => 1,
                    PrimitiveKind::WChar
                    | PrimitiveKind::RChar16
                    | PrimitiveKind::Short
                    | PrimitiveKind::UShort
                    | PrimitiveKind::I16
                    | PrimitiveKind::U16
                    | PrimitiveKind::F16
                    | PrimitiveKind::Bool16 => 2,
                    PrimitiveKind::RChar32
                    | PrimitiveKind::Long
                    | PrimitiveKind::ULong
                    | PrimitiveKind::I32
                    | PrimitiveKind::U32
                    | PrimitiveKind::F32
                    | PrimitiveKind::F32PP
                    | PrimitiveKind::Bool32
                    | PrimitiveKind::HRESULT => 4,
                    PrimitiveKind::F48 => 6,
                    PrimitiveKind::Quad
                    | PrimitiveKind::UQuad
                    | PrimitiveKind::I64
                    | PrimitiveKind::U64
                    | PrimitiveKind::F64
                    | PrimitiveKind::Complex32
                    | PrimitiveKind::Bool64 => 8,
                    PrimitiveKind::F80 => 10,
                    PrimitiveKind::Octa
                    | PrimitiveKind::UOcta
                    | PrimitiveKind::I128
                    | PrimitiveKind::U128
                    | PrimitiveKind::F128
                    | PrimitiveKind::Complex64 => 16,
                    PrimitiveKind::Complex80 => 20,
                    PrimitiveKind::Complex128 => 32,
                },
            )
        },
        TypeRecord::Class { forward_reference, size, name, .. } => DataSize::Bytes(
            get_forward_ref_aware_size(*forward_reference, *size as u32, name, forward_ref_sizes),
        ),
        TypeRecord::MemberFunction { .. } => DataSize::Bytes(ptr_size),
        TypeRecord::Procedure { .. } => DataSize::Bytes(ptr_size),
        TypeRecord::Pointer { size, .. } => DataSize::Bytes(*size as u32),
        TypeRecord::Array { dimensions, .. } => DataSize::Bytes(dimensions[dimensions.len() - 1]),
        TypeRecord::Union { forward_reference, size, name, .. } => DataSize::Bytes(
            get_forward_ref_aware_size(*forward_reference, *size, name, forward_ref_sizes),
        ),
        TypeRecord::Enumeration { underlying_type, .. } => DataSize::SizeOfType(*underlying_type),
        TypeRecord::Enumerate { value, .. } => DataSize::Bytes(
            match value {
                Variant::I8(_) | Variant::U8(_) => 1,
                Variant::I16(_) | Variant::U16(_) => 2,
                Variant::I32(_) | Variant::U32(_) => 4,
                Variant::I64(_) | Variant::U64(_) => 8,
            },
        ),
        TypeRecord::Modifier { underlying_type, .. } => DataSize::SizeOfType(*underlying_type),
        TypeRecord::ArgumentList { .. } | TypeRecord::Other { .. } => DataSize::Bytes(0),
    }
}

/// The size that the last entry named `name` records, if any.
fn lookup_forward_ref_size(fwd: &[(Vec<u8>, u32)], name: &[u8]) -> (r: Option<u32>)
    ensures
        r == forward_ref_size(fwd_view(fwd@), name@),
{
    let mut i: usize = fwd.len();
    proof {
        assert(fwd_view(fwd@).take(i as int) == fwd_view(fwd@));
    }
    while i > 0
        invariant
            i <= fwd@.len(),
            forward_ref_size(fwd_view(fwd@), name@) == forward_ref_size(fwd_view(fwd@).take(i as int), name@),
        decreases i,
    {
        let ghost prefix = fwd_view(fwd@).take(i as int);
        proof {
            assert(prefix.drop_last() == fwd_view(fwd@).take(i - 1));
            assert(prefix.last() == (fwd@[i - 1].0@, fwd@[i - 1].1));
        }
        if bytes_eq(fwd[i - 1].0.as_slice(), name) {
            return Some(fwd[i - 1].1);
        }
        i = i - 1;
    }
    None
}

/// The size of a class or union: for a forward reference, that which the
/// table records for its name, when it records one.
fn get_forward_ref_aware_size(forward_reference: bool, size: u32, name: &Vec<u8>, fwd: &[(Vec<u8>, u32)]) -> (r: u32)
    ensures
        r == forward_ref_aware_size(forward_reference, size, name@, fwd_view(fwd@)),
{
    if forward_reference {
        match lookup_forward_ref_size(fwd, name.as_slice()) {
            Some(s) => s,
            None => size,
        }
    } else {
        size
    }
}

/// The sizes of the named classes and unions among `types` that are not
/// forward references, in order.
pub open spec fn forward_ref_sizes_of(types: Seq<Option<TypeRecord>>) -> Seq<(Seq<u8>, u32)>
    decreases types.len(),
{
    if types.len() == 0 {
        Seq::empty()
    } else {
        let earlier = forward_ref_sizes_of(types.drop_last());
        match types.last() {
            Some(TypeRecord::Class { forward_reference, size, name, .. }) => if forward_reference {
                earlier
            } else {
                earlier.push((name@, size as u32))
            },
            Some(TypeRecord::Union { forward_reference, size, name, .. }) => if forward_reference {
                earlier
            } else {
                earlier.push((name@, size))
            },
            _ => earlier,
        }
    }
}

/// The size of the type at `index`, following at most `fuel` enumerations and
/// modified types to their underlying types; `None` where the index is out of
/// the table, an array has no dimension, or the fuel runs out. A record that
/// does not parse has size zero.
pub open spec fn size_within(
    types: Seq<Option<TypeRecord>>,
    fwd: Seq<(Seq<u8>, u32)>,
    ptr_size: u32,
    index: u32,
    fuel: nat,
) -> Option<u32>
    decreases fuel,
{
    if index >= types.len() {
        None
    } else {
        match types[index as int] {
            None => Some(0u32),
            Some(record) => if !record_is_well_formed(record) {
                None
            } else {
                match record_size(record, ptr_size, fwd) {
                    DataSize::Bytes(b) => Some(b),
                    DataSize::SizeOfType(u) => if fuel == 0 {
                        None
                    } else {
                        size_within(types, fwd, ptr_size, u, (fuel - 1) as nat)
                    },
                }
            },
        }
    }
}

/// With more fuel the size does not change.
pub proof fn lemma_size_within_more_fuel(
    types: Seq<Option<TypeRecord>>,
    fwd: Seq<(Seq<u8>, u32)>,
    ptr_size: u32,
    index: u32,
    fuel: nat,
    more: nat,
)
    requires
        size_within(types, fwd, ptr_size, index, fuel) is Some,
        fuel <= more,
    ensures
        size_within(types, fwd, ptr_size, index, more) == size_within(types, fwd, ptr_size, index, fuel),
    decreases fuel,
{
    if fuel > 0 {
        match types[index as int] {
            Some(record) => match record_size(record, ptr_size, fwd) {
                DataSize::SizeOfType(u) => {
                    lemma_size_within_more_fuel(types, fwd, ptr_size, u, (fuel - 1) as nat, (more - 1) as nat);
                },
                _ => {},
            },
            None => {},
        }
    }
}

/// The types of a PDB's type stream by index, with the sizes of its named
/// classes and unions and the size of a pointer.
pub struct TypeTable {
    types: Vec<Option<TypeRecord>>,
    forward_ref_sizes: Vec<(Vec<u8>, u32)>,
    ptr_size: u32,
}

impl TypeTable {
    /// The type records by index: `None` where a record does not parse.
    pub closed spec fn types(&self) -> Seq<Option<TypeRecord>> {
        self.types@
    }

    /// The size of a pointer.
    pub closed spec fn ptr_size(&self) -> u32 {
        self.ptr_size
    }

    /// The sizes of named classes and unions, later entries first in lookups.
    pub closed spec fn forward_ref_sizes(&self) -> Seq<(Seq<u8>, u32)> {
        fwd_view(self.forward_ref_sizes@)
    }

    /// The forward-reference sizes are those of the table's own types.
    pub closed spec fn wf(&self) -> bool {
        self.forward_ref_sizes() == forward_ref_sizes_of(self.types())
    }

    /// The number of records, type indices running from zero.
    pub fn len(&self) -> (n: usize)
        ensures
            n == self.types().len(),
    {
        self.types.len()
    }

    /// The record at a type index, if the index is in the table.
    pub fn record_at(&self, index: u32) -> (r: Option<&Option<TypeRecord>>)
        ensures
            (index as int) < self.types().len() ==> r == Some(&self.types()[index as int]),
            (index as int) >= self.types().len() ==> r is None,
    {
        if (index as usize) < self.types.len() {
            Some(&self.types[index as usize])
        } else {
            None
        }
    }

    /// The size of the type that a record describes, as the table's pointer
    /// size and named sizes give it; see `record_size`.
    pub fn data_size_of(&self, record: &TypeRecord) -> (d: DataSize)
        requires
            record_is_well_formed(*record),
        ensures
            d == record_size(*record, self.ptr_size(), self.forward_ref_sizes()),
    {
        get_data_size(record, self.ptr_size, self.forward_ref_sizes.as_slice())
    }

    /// The size of the type at `index` within `fuel` steps; see `size_within`.
    pub fn size_within_fuel(&self, index: u32, fuel: u64) -> (r: Option<u32>)
        ensures
            r == self.size_within(index, fuel as nat),
        decreases fuel,
    {
        if (index as usize) >= self.types.len() {
            return None;
        }
        match &self.types[index as usize] {
            None => Some(0),
            Some(record) => {
                if let TypeRecord::Array { dimensions, .. } = record {
                    if dimensions.len() == 0 {
                        return None;
                    }
                }
                match get_data_size(record, self.ptr_size, self.forward_ref_sizes.as_slice()) {
                    DataSize::Bytes(b) => Some(b),
                    DataSize::SizeOfType(u) => if fuel == 0 {
                        None
                    } else {
                        self.size_within_fuel(u, fuel - 1)
                    },
                }
            },
        }
    }

    /// The size of the type at `index` within `fuel` steps; see `size_within`.
    pub open spec fn size_within(&self, index: u32, fuel: nat) -> Option<u32> {
        size_within(self.types(), self.forward_ref_sizes(), self.ptr_size(), index, fuel)
    }

    /// Whether looking up the size of the type at `index` ends: the index and
    /// every type it leads to are in the table, no array there lacks a
    /// dimension, and no chain of underlying types goes round in a loop.
    pub open spec fn size_is_defined(&self, index: u32) -> bool {
        exists|fuel: nat| #[trigger] self.size_within(index, fuel) is Some
    }

    /// The table of these types: the forward-reference sizes are those of
    /// the classes and unions that are not forward references, in order.
    pub fn new(types: Vec<Option<TypeRecord>>, ptr_size: u32) -> (t: Self)
        ensures
            t.wf(),
            t.types() == types@,
            t.ptr_size() == ptr_size,
    {
        let mut forward_ref_sizes: Vec<(Vec<u8>, u32)> = Vec::new();
        let mut i: usize = 0;
        while i < types.len()
            invariant
                i <= types@.len(),
                fwd_view(forward_ref_sizes@) == forward_ref_sizes_of(types@.take(i as int)),
            decreases types@.len() - i,
        {
            let ghost before = forward_ref_sizes@;
            proof {
                assert(types@.take(i + 1).drop_last() == types@.take(i as int));
                assert(types@.take(i + 1).last() == types@[i as int]);
            }
            match &types[i] {
                Some(TypeRecord::Class { forward_reference, size, name, .. }) => {
                    if !*forward_reference {
                        forward_ref_sizes.push((name.clone(), *size as u32));
                        proof {
                            assert(fwd_view(forward_ref_sizes@) == fwd_view(before).push((name@, *size as u32)));
                        }
                    }
                },
                Some(TypeRecord::Union { forward_reference, size, name, .. }) => {
                    if !*forward_reference {
                        forward_ref_sizes.push((name.clone(), *size));
                        proof {
                            assert(fwd_view(forward_ref_sizes@) == fwd_view(before).push((name@, *size)));
                        }
                    }
                },
                _ => {},
            }
            i = i + 1;
        }
        proof {
            assert(types@.take(i as int) == types@);
        }
        TypeTable { types, forward_ref_sizes, ptr_size }
    }

    /// The size of the type at `index`: a record that does not parse has size
    /// zero, and an enumeration or a modified type has the size of its
    /// underlying type.
    pub fn get_type_size(&self, index: u32) -> (size: u32)
        requires
            self.size_is_defined(index),
        ensures
            forall|fuel: nat| #[trigger] self.size_within(index, fuel) matches Some(s) ==> size == s,
    {
        let ghost fuel = choose|fuel: nat| #[trigger] self.size_within(index, fuel) is Some;
        let ghost mut f: nat = fuel;
        let mut i: u32 = index;
        loop
            invariant
                self.size_within(i, f) is Some,
                self.size_within(i, f) == self.size_within(index, fuel),
                self.size_within(index, fuel) is Some,
            decreases f,
        {
            let record = &self.types[i as usize];
            match record {
                None => {
                    proof {
                        self.lemma_unique(index, fuel);
                    }
                    return 0;
                },
                Some(r) => {
                    match get_data_size(r, self.ptr_size, self.forward_ref_sizes.as_slice()) {
                        DataSize::Bytes(b) => {
                            proof {
                                self.lemma_unique(index, fuel);
                            }
                            return b;
                        },
                        DataSize::SizeOfType(u) => {
                            proof {
                                f = (f - 1) as nat;
                            }
                            i = u;
                        },
                    }
                },
            }
        }
    }

    /// Any two amounts of fuel that reach a size reach the same size.
    proof fn lemma_unique(&self, index: u32, fuel: nat)
        requires
            self.size_within(index, fuel) is Some,
        ensures
            forall|other: nat| #[trigger] self.size_within(index, other) is Some ==> self.size_within(index, other) == self.size_within(index, fuel),
    {
        assert forall|other: nat| #[trigger] self.size_within(index, other) is Some implies self.size_within(index, other) == self.size_within(index, fuel) by {
            if other <= fuel {
                lemma_size_within_more_fuel(self.types(), self.forward_ref_sizes(), self.ptr_size(), index, other, fuel);
            } else {
                lemma_size_within_more_fuel(self.types(), self.forward_ref_sizes(), self.ptr_size(), index, fuel, other);
            }
        }
    }
}

/// The size of a pointer on a machine, by its PE machine code: eight bytes on
/// x64 (0x8664), ARM64 (0xAA64), Itanium (0x200) and RISC-V 64 (0x5064),
/// sixteen on RISC-V 128 (0x5128), four elsewhere.
pub open spec fn machine_pointer_size(machine: u16) -> u32 {
    if machine == 0x8664 || machine == 0xAA64 || machine == 0x200 || machine == 0x5064 {
        8
    } else if machine == 0x5128 {
        16
    } else {
        4
    }
}

/// The size of a pointer on a machine; see `machine_pointer_size`.
pub fn pointer_size_for_machine(machine: u16) -> (size: u32)
    ensures
        size == machine_pointer_size(machine),
{
    if machine == 0x8664 || machine == 0xAA64 || machine == 0x200 || machine == 0x5064 {
        8
    } else if machine == 0x5128 {
        16
    } else {
        4
    }
}

/// Writes out the types of a PDB's type stream, and looks up their sizes.
pub struct TypeDumper {
    table: TypeTable,
    flags: u32,
}

impl TypeDumper {
    /// The type table the dumper reads.
    pub closed spec fn table(&self) -> TypeTable {
        self.table
    }

    /// The dumper's flags, as bits.
    pub closed spec fn flags(&self) -> u32 {
        self.flags
    }

    /// A dumper of these types (by index), with pointers of `ptr_size` bytes.
    pub fn new(types: Vec<Option<TypeRecord>>, ptr_size: u32, flags: u32) -> (d: Self)
        ensures
            d.table().wf(),
            d.table().types() == types@,
            d.table().ptr_size() == ptr_size,
            d.flags() == flags,
    {
        TypeDumper { table: TypeTable::new(types, ptr_size), flags }
    }

    /// The size of the type at `index`; see `TypeTable::get_type_size`.
    pub fn get_type_size(&self, index: u32) -> (size: u32)
        requires
            self.table().size_is_defined(index),
        ensures
            forall|fuel: nat| #[trigger] self.table().size_within(index, fuel) matches Some(s) ==> size == s,
    {
        self.table.get_type_size(index)
    }
}

} // verus!
