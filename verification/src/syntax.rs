use vstd::prelude::*;
use crate::types::{AbiType, AtomType, Location};

verus! {

/// A reference to a type as written in a declaration.
#[derive(Debug, Clone, PartialEq, Eq)]
pub enum SyntaxRef {
    Atom { atom: AtomType, location: Location },
    Name { name: String, location: Location },
}

/// A member of a struct declaration.
#[derive(Debug, Clone, PartialEq, Eq)]
pub struct StructMemberSyntax {
    pub name: String,
    pub type_: SyntaxRef,
    pub location: Location,
}

/// A variant of an enum declaration.
#[derive(Debug, Clone, PartialEq, Eq)]
pub struct EnumVariantSyntax {
    pub name: String,
    pub location: Location,
}

/// An argument or a return value of a function declaration.
#[derive(Debug, Clone, PartialEq, Eq)]
pub struct FuncArgSyntax {
    pub name: String,
    pub type_: AbiType,
    pub location: Location,
}

/// A top-level declaration, as it comes out of the parser.
#[derive(Debug, PartialEq, Eq)]
pub enum SyntaxDecl {
    Struct { name: String, members: Vec<StructMemberSyntax>, location: Location },
    Enum { name: String, variants: Vec<EnumVariantSyntax>, location: Location },
    Alias { name: String, what: SyntaxRef, location: Location },
    Function {
        name: String,
        args: Vec<FuncArgSyntax>,
        rets: Vec<FuncArgSyntax>,
        location: Location,
    },
    Module { name: String, decls: Vec<SyntaxDecl>, location: Location },
}

/// The name that a declaration introduces.
pub open spec fn decl_name(d: SyntaxDecl) -> Seq<char> {
    match d {
        SyntaxDecl::Struct { name, .. } => name@,
        SyntaxDecl::Enum { name, .. } => name@,
        SyntaxDecl::Alias { name, .. } => name@,
        SyntaxDecl::Function { name, .. } => name@,
        SyntaxDecl::Module { name, .. } => name@,
    }
}

/// Where a declaration starts.
pub open spec fn decl_location(d: SyntaxDecl) -> Location {
    match d {
        SyntaxDecl::Struct { location, .. } => location,
        SyntaxDecl::Enum { location, .. } => location,
        SyntaxDecl::Alias { location, .. } => location,
        SyntaxDecl::Function { location, .. } => location,
        SyntaxDecl::Module { location, .. } => location,
    }
}

impl SyntaxDecl {
    pub fn name(&self) -> (r: &String)
        ensures
            r@ == decl_name(*self),
    {
        match self {
            SyntaxDecl::Struct { name, .. } => name,
            SyntaxDecl::Enum { name, .. } => name,
            SyntaxDecl::Alias { name, .. } => name,
            SyntaxDecl::Function { name, .. } => name,
            SyntaxDecl::Module { name, .. } => name,
        }
    }

    pub fn location(&self) -> (r: &Location)
        ensures
            *r == decl_location(*self),
    {
        match self {
            SyntaxDecl::Struct { location, .. } => location,
            SyntaxDecl::Enum { location, .. } => location,
            SyntaxDecl::Alias { location, .. } => location,
            SyntaxDecl::Function { location, .. } => location,
            SyntaxDecl::Module { location, .. } => location,
        }
    }
}

} // verus!
