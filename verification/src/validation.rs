use vstd::prelude::*;
use crate::casing::snake_case;
use crate::error::ValidationError;
use crate::layout::{
    all_finite, field_offset, first_infinite, layouts_fit, shape_bounded, shape_layout, Shape,
};
use crate::syntax::{
    decl_location, decl_name, EnumVariantSyntax, FuncArgSyntax, StructMemberSyntax, SyntaxDecl, SyntaxRef,
};
use crate::types::{
    DataType, DataTypeRef, DataTypeVariant, FuncDecl, Ident, Location,
};

verus! {

// What it takes for a list of declarations to form a module, and what the
// module then holds. Declaration `k` gets the identifier `Ident(k)`.

/// `ns[i]` already occurs before position `i`.
pub open spec fn seq_has_dup(ns: Seq<Seq<char>>, i: int) -> bool {
    exists|j: int| 0 <= j < i && ns[j] == ns[i]
}

/// `e` reports that `ns[i]`, declared at `ls[i]`, was declared before.
pub open spec fn dup_error(ns: Seq<Seq<char>>, ls: Seq<Location>, i: int, e: ValidationError) -> bool {
    exists|j: int|
        0 <= j < i && ns[j] == ns[i] && (e matches ValidationError::NameAlreadyExists {
            name,
            at_location,
            previous_location,
        } && name@ == ns[i] && at_location == ls[i] && previous_location == ls[j])
}

pub open spec fn decl_names(d: Seq<SyntaxDecl>) -> Seq<Seq<char>> {
    d.map_values(|x: SyntaxDecl| decl_name(x))
}

pub open spec fn decl_locations(d: Seq<SyntaxDecl>) -> Seq<Location> {
    d.map_values(|x: SyntaxDecl| decl_location(x))
}

pub open spec fn member_names(ms: Seq<StructMemberSyntax>) -> Seq<Seq<char>> {
    ms.map_values(|m: StructMemberSyntax| m.name@)
}

pub open spec fn member_locations(ms: Seq<StructMemberSyntax>) -> Seq<Location> {
    ms.map_values(|m: StructMemberSyntax| m.location)
}

pub open spec fn variant_names(vs: Seq<EnumVariantSyntax>) -> Seq<Seq<char>> {
    vs.map_values(|v: EnumVariantSyntax| v.name@)
}

pub open spec fn variant_locations(vs: Seq<EnumVariantSyntax>) -> Seq<Location> {
    vs.map_values(|v: EnumVariantSyntax| v.location)
}

pub open spec fn arg_names(args: Seq<FuncArgSyntax>) -> Seq<Seq<char>> {
    args.map_values(|a: FuncArgSyntax| a.name@)
}

pub open spec fn arg_locations(args: Seq<FuncArgSyntax>) -> Seq<Location> {
    args.map_values(|a: FuncArgSyntax| a.location)
}

// ---------------------------------------------------------------------------
// Names

/// Declaration `k` cannot be given a name: it is a nested module, or its name
/// is taken by an earlier declaration.
pub open spec fn name_clash(d: Seq<SyntaxDecl>, k: int) -> bool {
    d[k] is Module || seq_has_dup(decl_names(d), k)
}

/// Every declaration introduces a name of its own.
pub open spec fn names_ok(d: Seq<SyntaxDecl>) -> bool {
    forall|k: int| 0 <= k < d.len() ==> !#[trigger] name_clash(d, k)
}

pub open spec fn first_name_clash(d: Seq<SyntaxDecl>, k: int) -> bool {
    &&& 0 <= k < d.len()
    &&& name_clash(d, k)
    &&& forall|j: int| 0 <= j < k ==> !#[trigger] name_clash(d, j)
}

pub open spec fn name_clash_error(d: Seq<SyntaxDecl>, k: int, e: ValidationError) -> bool {
    if d[k] is Module {
        e matches ValidationError::Syntax { expected, location } && expected@
            == "type or function declaration"@ && location == decl_location(d[k])
    } else {
        dup_error(decl_names(d), decl_locations(d), k, e)
    }
}

// ---------------------------------------------------------------------------
// References
//
// A type reference is resolved against a list of declared names: it refers
// to the first declaration that carries its name.

/// `ns[j]` is the first entry of `ns` equal to `s`.
pub open spec fn first_index(ns: Seq<Seq<char>>, s: Seq<char>, j: int) -> bool {
    &&& 0 <= j < ns.len()
    &&& ns[j] == s
    &&& forall|i: int| 0 <= i < j ==> ns[i] != s
}

pub open spec fn name_in(ns: Seq<Seq<char>>, s: Seq<char>) -> bool {
    exists|j: int| 0 <= j < ns.len() && ns[j] == s
}

/// The index of the first entry of `ns` equal to `s`.
pub open spec fn index_in(ns: Seq<Seq<char>>, s: Seq<char>) -> int {
    choose|j: int| first_index(ns, s, j)
}

pub open spec fn ref_resolves_in(ns: Seq<Seq<char>>, r: SyntaxRef) -> bool {
    match r {
        SyntaxRef::Atom { .. } => true,
        SyntaxRef::Name { name, .. } => name_in(ns, name@),
    }
}

/// What a type reference refers to among the names `ns`.
pub open spec fn resolve_in(ns: Seq<Seq<char>>, r: SyntaxRef) -> DataTypeRef {
    match r {
        SyntaxRef::Atom { atom, .. } => DataTypeRef::Atom(atom),
        SyntaxRef::Name { name, .. } => DataTypeRef::Defined(Ident(index_in(ns, name@) as usize)),
    }
}

/// A name that occurs in `ns` has a first occurrence, and only one.
pub proof fn lemma_first_index(ns: Seq<Seq<char>>, s: Seq<char>)
    ensures
        name_in(ns, s) ==> first_index(ns, s, index_in(ns, s)),
        forall|j: int, j2: int| first_index(ns, s, j) && first_index(ns, s, j2) ==> j == j2,
    decreases ns.len(),
{
    if name_in(ns, s) {
        let p = ns.drop_last();
        lemma_first_index(p, s);
        if name_in(p, s) {
            let j = index_in(p, s);
            assert(p[j] == ns[j]);
            assert forall|i: int| 0 <= i < j implies ns[i] != s by {
                assert(p[i] == ns[i]);
            }
            assert(first_index(ns, s, j));
        } else {
            assert forall|i: int| 0 <= i < ns.len() - 1 implies ns[i] != s by {
                assert(p[i] == ns[i]);
            }
            assert(first_index(ns, s, ns.len() - 1));
        }
    }
    assert forall|j: int, j2: int| first_index(ns, s, j) && first_index(ns, s, j2) implies j == j2 by {
        if j < j2 {
            assert(ns[j] != s);
        } else if j2 < j {
            assert(ns[j2] != s);
        }
    }
}

/// What a type reference in a declaration refers to.
pub open spec fn resolve(d: Seq<SyntaxDecl>, r: SyntaxRef) -> DataTypeRef {
    resolve_in(decl_names(d), r)
}

pub open spec fn ref_error(r: SyntaxRef, e: ValidationError) -> bool {
    r matches SyntaxRef::Name { name, location } && (e matches ValidationError::NameNotFound {
        name: n,
        use_location,
    } && n@ == name@ && use_location == location)
}

// ---------------------------------------------------------------------------
// Declarations one by one, their references resolved against the names `ns`
pub open spec fn member_fails(ns: Seq<Seq<char>>, ms: Seq<StructMemberSyntax>, i: int) -> bool {
    seq_has_dup(member_names(ms), i) || !ref_resolves_in(ns, ms[i].type_)
}

pub open spec fn member_error(
    ns: Seq<Seq<char>>,
    ms: Seq<StructMemberSyntax>,
    i: int,
    e: ValidationError,
) -> bool {
    if seq_has_dup(member_names(ms), i) {
        dup_error(member_names(ms), member_locations(ms), i, e)
    } else {
        ref_error(ms[i].type_, e)
    }
}

pub open spec fn func_args(args: Seq<FuncArgSyntax>, rets: Seq<FuncArgSyntax>) -> Seq<FuncArgSyntax> {
    args + rets
}

/// `decl` is well formed on its own.
pub open spec fn decl_ok_in(ns: Seq<Seq<char>>, decl: SyntaxDecl) -> bool {
    match decl {
        SyntaxDecl::Struct { members, .. } => members.len() > 0 && forall|i: int|
            0 <= i < members.len() ==> !#[trigger] member_fails(ns, members@, i),
        SyntaxDecl::Enum { variants, .. } => variants.len() > 0 && forall|i: int|
            0 <= i < variants.len() ==> !#[trigger] seq_has_dup(variant_names(variants@), i),
        SyntaxDecl::Alias { what, .. } => ref_resolves_in(ns, what),
        SyntaxDecl::Function { args, rets, .. } => {
            &&& forall|i: int|
                0 <= i < args.len() + rets.len() ==> !#[trigger] seq_has_dup(
                    arg_names(func_args(args@, rets@)),
                    i,
                )
            &&& rets.len() <= 1
        },
        SyntaxDecl::Module { .. } => false,
    }
}

/// `e` is what `decl` is rejected with: its first fault.
pub open spec fn decl_error_in(ns: Seq<Seq<char>>, decl: SyntaxDecl, e: ValidationError) -> bool {
    match decl {
        SyntaxDecl::Struct { name, members, location } => if members.len() == 0 {
            e matches ValidationError::Empty { name: n, location: l } && n@ == name@ && l == location
        } else {
            exists|i: int|
                0 <= i < members.len() && #[trigger] member_fails(ns, members@, i) && (forall|j: int|
                    0 <= j < i ==> !#[trigger] member_fails(ns, members@, j)) && member_error(
                    ns,
                    members@,
                    i,
                    e,
                )
        },
        SyntaxDecl::Enum { name, variants, location } => if variants.len() == 0 {
            e matches ValidationError::Empty { name: n, location: l } && n@ == name@ && l == location
        } else {
            exists|i: int|
                0 <= i < variants.len() && #[trigger] seq_has_dup(variant_names(variants@), i) && (
                forall|j: int| 0 <= j < i ==> !#[trigger] seq_has_dup(variant_names(variants@), j))
                    && dup_error(variant_names(variants@), variant_locations(variants@), i, e)
        },
        SyntaxDecl::Alias { what, .. } => ref_error(what, e),
        SyntaxDecl::Function { args, rets, location, .. } => {
            let all = func_args(args@, rets@);
            if exists|i: int| 0 <= i < all.len() && #[trigger] seq_has_dup(arg_names(all), i) {
                exists|i: int|
                    0 <= i < all.len() && #[trigger] seq_has_dup(arg_names(all), i) && (forall|j: int|
                        0 <= j < i ==> !#[trigger] seq_has_dup(arg_names(all), j)) && dup_error(
                        arg_names(all),
                        arg_locations(all),
                        i,
                        e,
                    )
            } else {
                e matches ValidationError::Syntax { expected, location: l } && expected@
                    == "at most one return value"@ && l == location
            }
        },
        SyntaxDecl::Module { .. } => false,
    }
}

/// Declaration `k` is well formed on its own.
pub open spec fn decl_ok(d: Seq<SyntaxDecl>, k: int) -> bool {
    decl_ok_in(decl_names(d), d[k])
}

/// `e` is what declaration `k` is rejected with: its first fault.
pub open spec fn decl_error(d: Seq<SyntaxDecl>, k: int, e: ValidationError) -> bool {
    decl_error_in(decl_names(d), d[k], e)
}

pub open spec fn decls_ok(d: Seq<SyntaxDecl>) -> bool {
    forall|k: int| 0 <= k < d.len() ==> #[trigger] decl_ok(d, k)
}

pub open spec fn first_bad_decl(d: Seq<SyntaxDecl>, k: int) -> bool {
    &&& 0 <= k < d.len()
    &&& !decl_ok(d, k)
    &&& forall|j: int| 0 <= j < k ==> #[trigger] decl_ok(d, j)
}

// ---------------------------------------------------------------------------
// Data types as a whole

pub open spec fn decl_field_types(d: Seq<SyntaxDecl>, members: Seq<StructMemberSyntax>) -> Seq<DataTypeRef> {
    members.map_values(|m: StructMemberSyntax| resolve(d, m.type_))
}

/// What the layout of declaration `k` depends on.
pub open spec fn decl_shape(d: Seq<SyntaxDecl>, k: int) -> Shape {
    match d[k] {
        SyntaxDecl::Struct { members, .. } => Shape::Struct(decl_field_types(d, members@)),
        SyntaxDecl::Enum { .. } => Shape::Enum,
        SyntaxDecl::Alias { what, .. } => Shape::Alias(resolve(d, what)),
        _ => Shape::Other,
    }
}

pub open spec fn decl_shapes(d: Seq<SyntaxDecl>) -> Seq<Shape> {
    Seq::new(d.len(), |k: int| decl_shape(d, k))
}

/// The declarations form a module.
pub open spec fn declarations_valid(d: Seq<SyntaxDecl>) -> bool {
    &&& names_ok(d)
    &&& decls_ok(d)
    &&& all_finite(decl_shapes(d))
}

/// What the layout of the data types needs in order to be computed: no size
/// exceeds `usize::MAX`.
pub open spec fn layout_computable(d: Seq<SyntaxDecl>) -> bool {
    names_ok(d) && decls_ok(d) ==> layouts_fit(decl_shapes(d))
}

/// `e` is the error that the declarations are rejected with: the first fault
/// in the names, else the first faulty declaration, else the first data type
/// that contains itself.
pub open spec fn rejection(d: Seq<SyntaxDecl>, e: ValidationError) -> bool {
    ||| exists|k: int| #[trigger] first_name_clash(d, k) && name_clash_error(d, k, e)
    ||| names_ok(d) && exists|k: int| #[trigger] first_bad_decl(d, k) && decl_error(d, k, e)
    ||| names_ok(d) && decls_ok(d) && exists|k: int|
        #[trigger] first_infinite(decl_shapes(d), k) && (e matches ValidationError::Infinite {
            name,
            location,
        } && name@ == decl_name(d[k]) && location == decl_location(d[k]))
}

// ---------------------------------------------------------------------------
// The module built from valid declarations

/// `dt` is data type `k` laid out with `n` references of fuel.
pub open spec fn data_type_built_at(d: Seq<SyntaxDecl>, k: int, dt: DataType, n: nat) -> bool {
    &&& shape_layout(decl_shapes(d), k, n) == (dt.repr_size as nat, dt.align as nat)
    &&& match (d[k], dt.variant) {
        (SyntaxDecl::Struct { members, .. }, DataTypeVariant::Struct(sd)) => {
            &&& sd.members.len() == members.len()
            &&& forall|i: int|
                0 <= i < members.len() ==> {
                    &&& (#[trigger] sd.members@[i]).name@ == members@[i].name@
                    &&& sd.members@[i].type_ == resolve(d, members@[i].type_)
                    &&& sd.members@[i].offset == field_offset(
                        decl_shapes(d),
                        decl_field_types(d, members@),
                        i,
                        n,
                    )
                }
        },
        (SyntaxDecl::Enum { variants, .. }, DataTypeVariant::Enum(ed)) => {
            &&& ed.members.len() == variants.len()
            &&& forall|i: int|
                0 <= i < variants.len() ==> (#[trigger] ed.members@[i]).name@ == variants@[i].name@
        },
        (SyntaxDecl::Alias { what, .. }, DataTypeVariant::Alias(ad)) => ad.to == resolve(d, what),
        _ => false,
    }
}

/// `dt` is data type `k`, laid out with any fuel that suffices.
pub open spec fn data_type_built(d: Seq<SyntaxDecl>, k: int, dt: DataType) -> bool {
    forall|n: nat| #[trigger] shape_bounded(decl_shapes(d), k, n) ==> data_type_built_at(d, k, dt, n)
}

/// `fd` is function declaration `decl`, bound under `prefix`.
pub open spec fn func_built(decl: SyntaxDecl, prefix: Seq<char>, fd: FuncDecl) -> bool {
    match decl {
        SyntaxDecl::Function { name, args, rets, .. } => {
            &&& fd.args.len() == args.len()
            &&& forall|i: int|
                0 <= i < args.len() ==> (#[trigger] fd.args@[i]).name@ == args@[i].name@
                    && fd.args@[i].type_ == args@[i].type_
            &&& fd.rets.len() == rets.len()
            &&& forall|i: int|
                0 <= i < rets.len() ==> (#[trigger] fd.rets@[i]).name@ == rets@[i].name@
                    && fd.rets@[i].type_ == rets@[i].type_
            &&& fd.field_name@ == name@
            &&& fd.binding_name@ == prefix + seq!['_'] + snake_case(name@)
        },
        _ => false,
    }
}

} // verus!
