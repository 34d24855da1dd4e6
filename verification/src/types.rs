use vstd::prelude::*;

verus! {

/// The primitive types that a data type can be built from.
#[derive(Debug, Clone, Copy, PartialEq, Eq, Structural)]
pub enum AtomType {
    Bool,
    U8,
    U16,
    U32,
    U64,
    I8,
    I16,
    I32,
    I64,
    F32,
    F64,
}

/// Size in bytes of an atom; atoms are aligned to their size.
pub open spec fn atom_size(a: AtomType) -> nat {
    match a {
        AtomType::Bool | AtomType::U8 | AtomType::I8 => 1,
        AtomType::U16 | AtomType::I16 => 2,
        AtomType::U32 | AtomType::I32 | AtomType::F32 => 4,
        AtomType::U64 | AtomType::I64 | AtomType::F64 => 8,
    }
}

impl AtomType {
    /// The number of bytes a value of this atom occupies.
    pub fn repr_size(&self) -> (r: usize)
        ensures
            r == atom_size(*self),
    {
        match self {
            AtomType::Bool | AtomType::U8 | AtomType::I8 => 1,
            AtomType::U16 | AtomType::I16 => 2,
            AtomType::U32 | AtomType::I32 | AtomType::F32 => 4,
            AtomType::U64 | AtomType::I64 | AtomType::F64 => 8,
        }
    }
}

/// The types a function argument can have at the ABI level.
#[derive(Debug, Clone, Copy, PartialEq, Eq, Structural)]
pub enum AbiType {
    I32,
    I64,
    F32,
    F64,
}

/// A position in the source text: lines count from 1, columns from 0.
#[derive(Debug, Clone, Copy, PartialEq, Eq, Structural)]
pub struct Location {
    pub line: usize,
    pub column: usize,
}

/// The identifier of a declaration: its index in the module's name table.
#[derive(Debug, Clone, Copy, PartialEq, Eq, Hash, PartialOrd, Ord, Structural)]
pub struct Ident(pub usize);

/// A declared name together with where it was declared.
#[derive(Debug, Clone, PartialEq, Eq)]
pub struct Name {
    pub name: String,
    pub location: Location,
}

/// A reference to a type: either a declared data type or an atom.
#[derive(Debug, Clone, Copy, PartialEq, Eq, Structural)]
pub enum DataTypeRef {
    Defined(Ident),
    Atom(AtomType),
}

#[derive(Debug, Clone, PartialEq, Eq)]
pub struct StructMember {
    pub name: String,
    pub type_: DataTypeRef,
    pub offset: usize,
}

#[derive(Debug, Clone, PartialEq, Eq)]
pub struct StructDataType {
    pub members: Vec<StructMember>,
}

#[derive(Debug, Clone, PartialEq, Eq)]
pub struct EnumMember {
    pub name: String,
}

#[derive(Debug, Clone, PartialEq, Eq)]
pub struct EnumDataType {
    pub members: Vec<EnumMember>,
}

#[derive(Debug, Clone, PartialEq, Eq)]
pub struct AliasDataType {
    pub to: DataTypeRef,
}

#[derive(Debug, Clone, PartialEq, Eq)]
pub enum DataTypeVariant {
    Struct(StructDataType),
    Enum(EnumDataType),
    Alias(AliasDataType),
}

/// A validated data type with its memory layout.
#[derive(Debug, Clone, PartialEq, Eq)]
pub struct DataType {
    pub variant: DataTypeVariant,
    pub repr_size: usize,
    pub align: usize,
}

#[derive(Debug, Clone, PartialEq, Eq)]
pub struct FuncArg {
    pub type_: AbiType,
    pub name: String,
}

/// A validated function declaration.
#[derive(Debug, Clone, PartialEq, Eq)]
pub struct FuncDecl {
    pub args: Vec<FuncArg>,
    pub rets: Vec<FuncArg>,
    pub field_name: String,
    pub binding_name: String,
}

/// An entity of a module, seen together with its identifier and name.
#[derive(Debug, Clone, PartialEq, Eq)]
pub struct Named<'a, E> {
    pub id: Ident,
    pub name: &'a Name,
    pub entity: &'a E,
}

} // verus!
