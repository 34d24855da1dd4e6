use vstd::prelude::*;
use crate::layout::{
    all_finite, field_offset, lemma_closed_unbounded, ordering_ok, refers_into, refs_of, fields_layout, is_data_shape, lemma_align_up, lemma_align_up_mod, lemma_fields_align, lemma_fields_align_divides, lemma_fields_bounded_all, lemma_fields_prefix, lemma_member_end, lemma_ref_align, lemma_shape_size_multiple, ref_bounded, ref_layout, shape_bounded, shape_finite, valid_align, Shape,
};
use crate::module::{
    is_data_decl, module_built_from, Module,
};
use crate::syntax::{
    decl_name, SyntaxDecl, SyntaxRef,
};
use crate::types::{
    atom_size, AtomType, DataType, DataTypeRef, DataTypeVariant, Ident,
};
use crate::validation::{
    data_type_built, data_type_built_at, decl_field_types, decl_shapes, declarations_valid, resolve,
};

verus! {

/// `m` is the module that the declarations `d` form.
pub open spec fn module_of(d: Seq<SyntaxDecl>, m: Module) -> bool {
    declarations_valid(d) && module_built_from(d, m.module_name@, m.binding_prefix@, m)
}

/// A reference names an atom or a data type of `m`.
pub open spec fn ref_in(m: Module, r: DataTypeRef) -> bool {
    match r {
        DataTypeRef::Atom(_) => true,
        DataTypeRef::Defined(id) => m.data_types@.contains_key(id.0),
    }
}

/// The size of what `r` refers to in `m`.
pub open spec fn ref_size(m: Module, r: DataTypeRef) -> nat {
    match r {
        DataTypeRef::Atom(a) => atom_size(a),
        DataTypeRef::Defined(id) => m.data_types@[id.0].repr_size as nat,
    }
}

/// The alignment of what `r` refers to in `m`.
pub open spec fn ref_align(m: Module, r: DataTypeRef) -> nat {
    match r {
        DataTypeRef::Atom(a) => atom_size(a),
        DataTypeRef::Defined(id) => m.data_types@[id.0].align as nat,
    }
}

/// The types that a data type refers to: a struct's member types, or an
/// alias's target.
pub open spec fn data_type_refs(dt: DataType) -> Seq<DataTypeRef> {
    match dt.variant {
        DataTypeVariant::Struct(sd) => sd.members@.map_values(|sm: crate::types::StructMember| sm.type_),
        DataTypeVariant::Alias(ad) => seq![ad.to],
        DataTypeVariant::Enum(_) => Seq::empty(),
    }
}

/// Enough fuel to lay out data type `key` of the module.
proof fn lemma_fuel(d: Seq<SyntaxDecl>, m: Module, key: usize) -> (n: nat)
    requires
        module_of(d, m),
        m.data_types@.contains_key(key),
    ensures
        shape_bounded(decl_shapes(d), key as int, n),
        data_type_built_at(d, key as int, m.data_types@[key], n),
{
    let s = decl_shapes(d);
    assert(key < d.len() && is_data_decl(d[key as int]));
    assert(is_data_shape(s[key as int]));
    assert(shape_finite(s, key as int));
    let n = choose|n: nat| shape_bounded(s, key as int, n);
    assert(data_type_built(d, key as int, m.data_types@[key]));
    n
}

/// A bounded reference names an atom or a data type of the module, whose
/// layout is the one the module holds.
proof fn lemma_ref_in_module(d: Seq<SyntaxDecl>, m: Module, r: DataTypeRef, n: nat)
    requires
        module_of(d, m),
        ref_bounded(decl_shapes(d), r, n),
    ensures
        ref_in(m, r),
        ref_layout(decl_shapes(d), r, n) == (ref_size(m, r), ref_align(m, r)),
{
    let s = decl_shapes(d);
    if let DataTypeRef::Defined(id) = r {
        let j = id.0;
        assert(shape_bounded(s, j as int, (n - 1) as nat));
        assert(is_data_decl(d[j as int]));
        assert(m.data_types@.contains_key(j));
        assert(data_type_built(d, j as int, m.data_types@[j]));
        assert(data_type_built_at(d, j as int, m.data_types@[j], (n - 1) as nat));
    }
}

/// A module built from declarations has a name-table entry for each of its
/// data types and functions, and lists only data types in its ordering.
pub proof fn law_module_well_formed(d: Seq<SyntaxDecl>, m: Module)
    requires
        module_of(d, m),
    ensures
        m.well_formed(),
{
    assert forall|i: int| 0 <= i < m.data_type_ordering@.len() implies m.data_types@.contains_key(
        #[trigger] m.data_type_ordering@[i].0,
    ) by {}
}

/// In a module built from declarations, the data types are exactly the
/// struct, enum and alias declarations and the functions exactly the function
/// declarations; no identifier is both, and each has an entry in the name
/// table, as has each entry of the ordering.
pub proof fn law_module_entities(d: Seq<SyntaxDecl>, m: Module)
    requires
        module_of(d, m),
    ensures
        forall|key: usize|
            #[trigger] m.data_types@.contains_key(key) <==> (key < d.len() && is_data_decl(d[key as int])),
        forall|key: usize|
            #[trigger] m.funcs@.contains_key(key) <==> (key < d.len() && d[key as int] is Function),
        forall|key: usize| #[trigger] m.data_types@.contains_key(key) ==> !m.funcs@.contains_key(key),
        forall|key: usize| #[trigger] m.data_types@.contains_key(key) ==> key < m.names@.len(),
        forall|key: usize| #[trigger] m.funcs@.contains_key(key) ==> key < m.names@.len(),
        forall|i: int|
            0 <= i < m.data_type_ordering@.len() ==> m.data_types@.contains_key(
                #[trigger] m.data_type_ordering@[i].0,
            ),
{
    law_module_well_formed(d, m);
}

/// The name table of a module lists the declarations' names in order, each
/// once.
pub proof fn law_names_distinct(d: Seq<SyntaxDecl>, m: Module)
    requires
        module_of(d, m),
    ensures
        m.names@.len() == d.len(),
        forall|k: int| 0 <= k < d.len() ==> (#[trigger] m.names@[k]).name@ == decl_name(d[k]),
        forall|i: int, j: int|
            0 <= i < j < m.names@.len() ==> (#[trigger] m.names@[i]).name@ != (#[trigger] m.names@[j]).name@,
{
    crate::module::lemma_names_distinct(d);
    assert forall|i: int, j: int| 0 <= i < j < m.names@.len() implies (#[trigger] m.names@[i]).name@
        != (#[trigger] m.names@[j]).name@ by {
        assert(decl_name(d[i]) != decl_name(d[j]));
    }
}

/// Every data type of a module has a valid alignment and a size that is a
/// multiple of it; an enum takes four bytes aligned to four; an alias has the
/// size and alignment of what it names.
pub proof fn law_data_type_layout(d: Seq<SyntaxDecl>, m: Module, key: usize)
    requires
        module_of(d, m),
        m.data_types@.contains_key(key),
    ensures
        valid_align(m.data_types@[key].align as nat),
        m.data_types@[key].repr_size % m.data_types@[key].align == 0,
        m.data_types@[key].variant is Enum ==> m.data_types@[key].repr_size == 4
            && m.data_types@[key].align == 4,
        m.data_types@[key].variant matches DataTypeVariant::Alias(ad) ==> ref_in(m, ad.to)
            && m.data_types@[key].repr_size == ref_size(m, ad.to) && m.data_types@[key].align == ref_align(
            m,
            ad.to,
        ),
{
    let s = decl_shapes(d);
    let n = lemma_fuel(d, m, key);
    crate::layout::lemma_shape_align(s, key as int, n);
    lemma_shape_size_multiple(s, key as int, n);
    if let DataTypeVariant::Alias(ad) = m.data_types@[key].variant {
        if let SyntaxDecl::Alias { what, .. } = d[key as int] {
            assert(ad.to == resolve(d, what));
            assert(ref_bounded(s, ad.to, n));
            lemma_ref_in_module(d, m, ad.to, n);
        }
    }
}

/// The members of every struct of a module are laid out in order without
/// overlapping, each at an offset that is a multiple of its own alignment and
/// within the struct's size; the struct's alignment is a multiple of each
/// member's.
pub proof fn law_struct_layout(d: Seq<SyntaxDecl>, m: Module, key: usize)
    requires
        module_of(d, m),
        m.data_types@.contains_key(key),
        m.data_types@[key].variant is Struct,
    ensures
        forall|i: int|
            0 <= i < m.data_types@[key].variant->Struct_0.members@.len() ==> {
                let sm = #[trigger] m.data_types@[key].variant->Struct_0.members@[i];
                let dt = m.data_types@[key];
                &&& ref_in(m, sm.type_)
                &&& sm.offset as nat % ref_align(m, sm.type_) == 0
                &&& dt.align as nat % ref_align(m, sm.type_) == 0
                &&& sm.offset + ref_size(m, sm.type_) <= dt.repr_size
            },
        forall|i: int, j: int|
            0 <= i < j < m.data_types@[key].variant->Struct_0.members@.len() ==> (#[trigger] m.data_types@[
                key
            ].variant->Struct_0.members@[i]).offset + ref_size(
                m,
                m.data_types@[key].variant->Struct_0.members@[i].type_,
            ) <= (#[trigger] m.data_types@[key].variant->Struct_0.members@[j]).offset,
{
    let s = decl_shapes(d);
    let n = lemma_fuel(d, m, key);
    let dt = m.data_types@[key];
    let ms = dt.variant->Struct_0.members@;
    if let SyntaxDecl::Struct { members, .. } = d[key as int] {
        let rs = decl_field_types(d, members@);
        assert(s[key as int] == Shape::Struct(rs));
        let f = fields_layout(s, rs, n);
        lemma_fields_bounded_all(s, rs, n);
        lemma_fields_align(s, rs, n);
        lemma_fields_align_divides(s, rs, n);
        lemma_align_up(f.0, f.1);
        assert(ms.len() == rs.len());
        assert forall|i: int| 0 <= i < ms.len() implies {
            let sm = #[trigger] ms[i];
            &&& ref_in(m, sm.type_)
            &&& sm.offset as nat % ref_align(m, sm.type_) == 0
            &&& dt.align as nat % ref_align(m, sm.type_) == 0
            &&& sm.offset + ref_size(m, sm.type_) <= dt.repr_size
        } by {
            assert(rs[i] == ms[i].type_);
            assert(ref_bounded(s, rs[i], n));
            lemma_ref_in_module(d, m, rs[i], n);
            lemma_ref_align(s, rs[i], n);
            lemma_align_up_mod(fields_layout(s, rs.take(i), n).0, ref_layout(s, rs[i], n).1);
            assert(ms[i].offset == field_offset(s, rs, i, n));
            lemma_member_end(s, rs, i, n);
            lemma_fields_prefix(s, rs, i + 1, n);
        }
        assert forall|i: int, j: int| 0 <= i < j < ms.len() implies (#[trigger] ms[i]).offset + ref_size(
            m,
            ms[i].type_,
        ) <= (#[trigger] ms[j]).offset by {
            assert(rs[i] == ms[i].type_);
            assert(rs[j] == ms[j].type_);
            assert(ref_bounded(s, rs[i], n));
            assert(ref_bounded(s, rs[j], n));
            lemma_ref_in_module(d, m, rs[i], n);
            lemma_ref_in_module(d, m, rs[j], n);
            lemma_ref_align(s, rs[j], n);
            lemma_member_end(s, rs, i, n);
            assert(rs.take(j).take(i + 1) =~= rs.take(i + 1));
            lemma_fields_prefix(s, rs.take(j), i + 1, n);
            lemma_align_up(fields_layout(s, rs.take(j), n).0, ref_layout(s, rs[j], n).1);
        }
    }
}

/// The types that data type `key` refers to are those of its declaration.
proof fn lemma_refs_match(d: Seq<SyntaxDecl>, m: Module, key: usize)
    requires
        module_of(d, m),
        m.data_types@.contains_key(key),
    ensures
        data_type_refs(m.data_types@[key]) == refs_of(decl_shapes(d)[key as int]),
{
    let n = lemma_fuel(d, m, key);
    let dt = m.data_types@[key];
    match (d[key as int], dt.variant) {
        (SyntaxDecl::Struct { members, .. }, DataTypeVariant::Struct(sd)) => {
            assert(data_type_refs(dt) =~= decl_field_types(d, members@));
        },
        _ => {},
    }
}

/// Each data type of a module appears once in `data_type_ordering`, and after
/// every data type that it refers to.
pub proof fn law_ordering(d: Seq<SyntaxDecl>, m: Module)
    requires
        module_of(d, m),
    ensures
        forall|i: int, j: int|
            0 <= i < j < m.data_type_ordering@.len() ==> #[trigger] m.data_type_ordering@[i]
                != #[trigger] m.data_type_ordering@[j],
        forall|key: usize|
            #[trigger] m.data_types@.contains_key(key) <==> exists|i: int|
                0 <= i < m.data_type_ordering@.len() && m.data_type_ordering@[i].0 == key,
        forall|i: int, t: int|
            0 <= i < m.data_type_ordering@.len() && 0 <= t < data_type_refs(
                m.data_types@[m.data_type_ordering@[i].0],
            ).len() && (#[trigger] data_type_refs(m.data_types@[m.data_type_ordering@[i].0])[t]) is Defined
                ==> exists|i2: int|
                0 <= i2 < i && m.data_type_ordering@[i2] == data_type_refs(
                    m.data_types@[m.data_type_ordering@[i].0],
                )[t]->Defined_0,
{
    let s = decl_shapes(d);
    let ord = m.data_type_ordering@;
    assert(ordering_ok(s, m.data_types@, ord));
    assert forall|key: usize| #[trigger] m.data_types@.contains_key(key) <== exists|i: int|
        0 <= i < ord.len() && ord[i].0 == key by {
        if exists|i: int| 0 <= i < ord.len() && ord[i].0 == key {
            let i = choose|i: int| 0 <= i < ord.len() && ord[i].0 == key;
            assert(m.data_types@.contains_key(ord[i].0));
        }
    }
    assert forall|i: int, t: int|
        0 <= i < ord.len() && 0 <= t < data_type_refs(m.data_types@[ord[i].0]).len() && (
        #[trigger] data_type_refs(m.data_types@[ord[i].0])[t]) is Defined implies exists|i2: int|
        0 <= i2 < i && ord[i2] == data_type_refs(m.data_types@[ord[i].0])[t]->Defined_0 by {
        assert(m.data_types@.contains_key(ord[i].0));
        lemma_refs_match(d, m, ord[i].0);
        assert(refs_of(s[ord[i].0 as int])[t] is Defined);
    }
}

/// Type reference `r` names declaration `j`.
pub open spec fn ref_names(d: Seq<SyntaxDecl>, r: SyntaxRef, j: int) -> bool {
    r matches SyntaxRef::Name { name, .. } && name@ == decl_name(d[j])
}

/// Declaration `k` is a struct with a member whose type names declaration `j`,
/// or an alias of declaration `j`.
pub open spec fn decl_refers_to(d: Seq<SyntaxDecl>, k: int, j: int) -> bool {
    match d[k] {
        SyntaxDecl::Struct { members, .. } => exists|i: int|
            0 <= i < members.len() && #[trigger] ref_names(d, members@[i].type_, j),
        SyntaxDecl::Alias { what, .. } => ref_names(d, what, j),
        _ => false,
    }
}

/// Declaration `k` refers to a declaration of `u`.
pub open spec fn decl_refers_into(d: Seq<SyntaxDecl>, k: int, u: Set<int>) -> bool {
    exists|j: int| u.contains(j) && #[trigger] decl_refers_to(d, k, j)
}

/// A named reference to declaration `j` resolves to `j` once names are
/// distinct.
proof fn lemma_resolves_to(d: Seq<SyntaxDecl>, r: SyntaxRef, j: int)
    requires
        d.len() <= usize::MAX,
        crate::validation::names_ok(d),
        0 <= j < d.len(),
        ref_names(d, r, j),
    ensures
        resolve(d, r) == DataTypeRef::Defined(Ident(j as usize)),
{
    crate::module::lemma_names_distinct(d);
    if let SyntaxRef::Name { name, .. } = r {
        let ns = crate::validation::decl_names(d);
        assert(ns[j] == decl_name(d[j]));
        assert forall|i: int| 0 <= i < j implies ns[i] != name@ by {
            assert(ns[i] == decl_name(d[i]));
        }
        assert(crate::validation::first_index(ns, name@, j));
        crate::validation::lemma_first_index(ns, name@);
    }
}

/// A declaration that refers to a declaration of `u` refers, after
/// resolution, into `u`.
proof fn lemma_refers_into_resolved(d: Seq<SyntaxDecl>, u: Set<int>, j: int)
    requires
        d.len() <= usize::MAX,
        crate::validation::names_ok(d),
        forall|t: int| #[trigger] u.contains(t) ==> 0 <= t < d.len(),
        0 <= j < d.len(),
        decl_refers_into(d, j, u),
    ensures
        refers_into(decl_shapes(d), j, u.union(crate::layout::not_data(decl_shapes(d)))),
{
    let s = decl_shapes(d);
    let t = choose|t: int| u.contains(t) && #[trigger] decl_refers_to(d, j, t);
    match d[j] {
        SyntaxDecl::Struct { members, .. } => {
            let i = choose|i: int| 0 <= i < members.len() && #[trigger] ref_names(d, members@[i].type_, t);
            lemma_resolves_to(d, members@[i].type_, t);
            let rs = decl_field_types(d, members@);
            assert(refs_of(s[j]) == rs);
            assert(rs[i] == resolve(d, members@[i].type_));
            assert(refs_of(s[j])[i] is Defined);
        },
        SyntaxDecl::Alias { what, .. } => {
            lemma_resolves_to(d, what, t);
            assert(refs_of(s[j])[0] == resolve(d, what));
        },
        _ => {},
    }
}

/// Declarations in which data types refer to one another in a cycle are
/// rejected: no data type on the cycle has a finite size. `u` holds the
/// declarations on the cycle, each of which refers to one of them.
pub proof fn law_cycle_rejected(d: Seq<SyntaxDecl>, u: Set<int>, k: int)
    requires
        d.len() <= usize::MAX,
        u.contains(k),
        forall|j: int| #[trigger] u.contains(j) ==> 0 <= j < d.len() && decl_refers_into(d, j, u),
    ensures
        !declarations_valid(d),
{
    if declarations_valid(d) {
        let s = decl_shapes(d);
        assert forall|j: int| #[trigger] u.contains(j) implies refers_into(
            s,
            j,
            u.union(crate::layout::not_data(s)),
        ) by {
            lemma_refers_into_resolved(d, u, j);
        }
        assert forall|n: nat| !shape_bounded(s, k, n) by {
            lemma_closed_unbounded(s, u, n);
        }
        assert(is_data_shape(s[k]));
        assert(!shape_finite(s, k));
        assert(!all_finite(s));
    }
}

/// Ranked declarations: each reference made by a data type names a data type
/// of lower rank.
pub open spec fn ranked(d: Seq<SyntaxDecl>, rank: spec_fn(int) -> nat) -> bool {
    forall|k: int, j: int|
        0 <= k < d.len() && 0 <= j < d.len() && #[trigger] decl_refers_to(d, k, j) ==> is_data_decl(d[j])
            && rank(j) < rank(k)
}

/// A ranked data type is laid out within one more step than its rank.
proof fn lemma_ranked_bounded(d: Seq<SyntaxDecl>, rank: spec_fn(int) -> nat, k: int)
    requires
        d.len() <= usize::MAX,
        crate::validation::names_ok(d),
        crate::validation::decls_ok(d),
        ranked(d, rank),
        0 <= k < d.len(),
        is_data_decl(d[k]),
    ensures
        shape_bounded(decl_shapes(d), k, rank(k) + 1),
    decreases rank(k),
{
    let s = decl_shapes(d);
    let n = rank(k) + 1;
    assert(crate::validation::decl_ok(d, k));
    match d[k] {
        SyntaxDecl::Struct { members, .. } => {
            let rs = decl_field_types(d, members@);
            assert(s[k] == Shape::Struct(rs));
            assert forall|i: int| 0 <= i < rs.len() implies ref_bounded(s, #[trigger] rs[i], n) by {
                assert(rs[i] == resolve(d, members@[i].type_));
                assert(!crate::validation::member_fails(crate::validation::decl_names(d), members@, i));
                if let SyntaxRef::Name { name, .. } = members@[i].type_ {
                    let j = choose|j: int| 0 <= j < d.len() && crate::validation::decl_names(d)[j] == name@;
                    assert(crate::validation::decl_names(d)[j] == decl_name(d[j]));
                    assert(ref_names(d, members@[i].type_, j));
                    assert(decl_refers_to(d, k, j));
                    lemma_resolves_to(d, members@[i].type_, j);
                    lemma_ranked_bounded(d, rank, j);
                    crate::layout::lemma_shape_stable(s, j, rank(j) + 1, rank(k));
                }
            }
            lemma_fields_bounded_all(s, rs, n);
        },
        SyntaxDecl::Alias { what, .. } => {
            assert(s[k] == Shape::Alias(resolve(d, what)));
            if let SyntaxRef::Name { name, .. } = what {
                let j = choose|j: int| 0 <= j < d.len() && crate::validation::decl_names(d)[j] == name@;
                    assert(crate::validation::decl_names(d)[j] == decl_name(d[j]));
                assert(ref_names(d, what, j));
                assert(decl_refers_to(d, k, j));
                lemma_resolves_to(d, what, j);
                lemma_ranked_bounded(d, rank, j);
                crate::layout::lemma_shape_stable(s, j, rank(j) + 1, rank(k));
            }
        },
        _ => {},
    }
}

/// Declarations with distinct names and well-formed bodies whose data types
/// can be ranked, each referring only to data types of lower rank, have no
/// cycle among their data types: they form a module.
pub proof fn law_acyclic_accepted(d: Seq<SyntaxDecl>, rank: spec_fn(int) -> nat)
    requires
        d.len() <= usize::MAX,
        crate::validation::names_ok(d),
        crate::validation::decls_ok(d),
        ranked(d, rank),
    ensures
        declarations_valid(d),
{
    let s = decl_shapes(d);
    assert forall|k: int| 0 <= k < s.len() && is_data_shape(#[trigger] s[k]) implies shape_finite(s, k) by {
        assert(is_data_decl(d[k]));
        lemma_ranked_bounded(d, rank, k);
    }
}

/// Each atom takes its width in bytes and is aligned to it: one byte for
/// `bool`, `u8` and `i8`; two for `u16` and `i16`; four for `u32`, `i32` and
/// `f32`; eight for `u64`, `i64` and `f64`.
pub proof fn law_atom_widths(m: Module, a: AtomType)
    ensures
        ref_align(m, DataTypeRef::Atom(a)) == ref_size(m, DataTypeRef::Atom(a)),
        ref_size(m, DataTypeRef::Atom(a)) == 1 <==> (a == AtomType::Bool || a == AtomType::U8 || a
            == AtomType::I8),
        ref_size(m, DataTypeRef::Atom(a)) == 2 <==> (a == AtomType::U16 || a == AtomType::I16),
        ref_size(m, DataTypeRef::Atom(a)) == 4 <==> (a == AtomType::U32 || a == AtomType::I32 || a
            == AtomType::F32),
        ref_size(m, DataTypeRef::Atom(a)) == 8 <==> (a == AtomType::U64 || a == AtomType::I64 || a
            == AtomType::F64),
{
}

/// Every struct of a module is laid out as tightly as alignment allows: its
/// first member sits at offset 0 and each further member at the first offset
/// after the previous member's end that suits its own alignment; the
/// struct's alignment is that of one of its members (the largest, by
/// `law_struct_layout`), and its size is the end of its last member rounded
/// up to the next multiple of that alignment.
pub proof fn law_struct_layout_tight(d: Seq<SyntaxDecl>, m: Module, key: usize)
    requires
        module_of(d, m),
        m.data_types@.contains_key(key),
        m.data_types@[key].variant is Struct,
    ensures
        ({
            let dt = m.data_types@[key];
            let ms = dt.variant->Struct_0.members@;
            &&& ms.len() > 0
            &&& ms[0].offset == 0
            &&& forall|i: int|
                0 <= i < ms.len() - 1 ==> {
                    let end = (#[trigger] ms[i]).offset + ref_size(m, ms[i].type_);
                    &&& end <= ms[i + 1].offset
                    &&& ms[i + 1].offset < end + ref_align(m, ms[i + 1].type_)
                }
            &&& exists|i: int| 0 <= i < ms.len() && ref_align(m, (#[trigger] ms[i]).type_) == dt.align
            &&& ms[ms.len() - 1].offset + ref_size(m, ms[ms.len() - 1].type_) <= dt.repr_size
            &&& dt.repr_size < ms[ms.len() - 1].offset + ref_size(m, ms[ms.len() - 1].type_) + dt.align
        }),
{
    let s = decl_shapes(d);
    let n = lemma_fuel(d, m, key);
    let dt = m.data_types@[key];
    let ms = dt.variant->Struct_0.members@;
    if let SyntaxDecl::Struct { members, .. } = d[key as int] {
        let rs = decl_field_types(d, members@);
        assert(s[key as int] == Shape::Struct(rs));
        assert(crate::validation::decl_ok(d, key as int));
        assert(ms.len() == rs.len() && rs.len() > 0);
        lemma_fields_bounded_all(s, rs, n);
        lemma_fields_align(s, rs, n);
        assert forall|i: int| 0 <= i < ms.len() implies rs[i] == (#[trigger] ms[i]).type_ && ref_layout(
            s,
            rs[i],
            n,
        ) == (ref_size(m, ms[i].type_), ref_align(m, ms[i].type_)) && ms[i].offset == field_offset(
            s,
            rs,
            i,
            n,
        ) by {
            assert(ref_bounded(s, rs[i], n));
            lemma_ref_in_module(d, m, rs[i], n);
        }
        // The first member.
        assert(rs.take(0) =~= Seq::<DataTypeRef>::empty());
        lemma_ref_align(s, rs[0], n);
        assert(ms[0].offset == field_offset(s, rs, 0, n));
        // Each further member.
        assert forall|i: int| 0 <= i < ms.len() - 1 implies {
            let end = (#[trigger] ms[i]).offset + ref_size(m, ms[i].type_);
            &&& end <= ms[i + 1].offset
            &&& ms[i + 1].offset < end + ref_align(m, ms[i + 1].type_)
        } by {
            assert(rs[i] == ms[i].type_);
            assert(rs[i + 1] == ms[i + 1].type_);
            lemma_member_end(s, rs, i, n);
            lemma_ref_align(s, rs[i + 1], n);
            lemma_align_up(fields_layout(s, rs.take(i + 1), n).0, ref_layout(s, rs[i + 1], n).1);
        }
        // The alignment.
        crate::layout::lemma_fields_align_attained(s, rs, n);
        let w = choose|i: int|
            0 <= i < rs.len() && ref_layout(s, #[trigger] rs[i], n).1 == fields_layout(s, rs, n).1;
        assert(rs[w] == ms[w].type_);
        assert(ref_align(m, ms[w].type_) == dt.align);
        // The size.
        let last = ms.len() - 1;
        assert(rs.take(last + 1) =~= rs);
        assert(rs[last] == ms[last].type_);
        lemma_member_end(s, rs, last, n);
        lemma_align_up(fields_layout(s, rs, n).0, fields_layout(s, rs, n).1);
    }
}

} // verus!
