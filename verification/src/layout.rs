use vstd::prelude::*;
use crate::error::ValidationError;
use crate::types::{
    atom_size, AliasDataType, DataType, DataTypeRef, DataTypeVariant, EnumDataType, EnumMember,
    Ident, Name, StructDataType, StructMember,
};
use std::collections::HashMap;

verus! {

/// What the layout of a declaration depends on: the types it refers to.
pub enum Shape {
    Struct(Seq<DataTypeRef>),
    Enum,
    Alias(DataTypeRef),
    /// A declaration that is not a data type.
    Other,
}

/// The smallest multiple of `a` that is at least `x`.
pub open spec fn align_up(x: nat, a: nat) -> nat {
    if a == 0 || x % a == 0 {
        x
    } else {
        (x + (a - x % a)) as nat
    }
}

pub open spec fn max_nat(a: nat, b: nat) -> nat {
    if a < b {
        b
    } else {
        a
    }
}

/// Size and alignment of a type reference, looking at most `n` references deep.
pub open spec fn ref_layout(s: Seq<Shape>, r: DataTypeRef, n: nat) -> (nat, nat)
    decreases n, 0nat, 0nat,
{
    match r {
        DataTypeRef::Atom(a) => (atom_size(a), atom_size(a)),
        DataTypeRef::Defined(id) => {
            if n == 0 {
                (0, 1)
            } else {
                shape_layout(s, id.0 as int, (n - 1) as nat)
            }
        },
    }
}

/// End offset and alignment of a sequence of struct fields laid out one after
/// the other, each at the next offset that suits its alignment.
pub open spec fn fields_layout(s: Seq<Shape>, rs: Seq<DataTypeRef>, n: nat) -> (nat, nat)
    decreases n, 1nat, rs.len(),
{
    if rs.len() == 0 {
        (0, 1)
    } else {
        let prev = fields_layout(s, rs.drop_last(), n);
        let f = ref_layout(s, rs.last(), n);
        (align_up(prev.0, f.1) + f.0, max_nat(prev.1, f.1))
    }
}

/// Size and alignment of declaration `k`.
pub open spec fn shape_layout(s: Seq<Shape>, k: int, n: nat) -> (nat, nat)
    decreases n, 2nat, 0nat,
{
    if 0 <= k < s.len() {
        match s[k] {
            Shape::Struct(rs) => {
                let f = fields_layout(s, rs, n);
                (align_up(f.0, f.1), f.1)
            },
            Shape::Enum => (4, 4),
            Shape::Alias(r) => ref_layout(s, r, n),
            Shape::Other => (0, 1),
        }
    } else {
        (0, 1)
    }
}

/// Offset of field `i` in a struct with the fields `rs`.
pub open spec fn field_offset(s: Seq<Shape>, rs: Seq<DataTypeRef>, i: int, n: nat) -> nat {
    align_up(fields_layout(s, rs.take(i), n).0, ref_layout(s, rs[i], n).1)
}

/// Every chain of references starting at `r` reaches only data types and
/// ends within `n` steps.
pub open spec fn ref_bounded(s: Seq<Shape>, r: DataTypeRef, n: nat) -> bool
    decreases n, 0nat, 0nat,
{
    match r {
        DataTypeRef::Atom(_) => true,
        DataTypeRef::Defined(id) => n > 0 && shape_bounded(s, id.0 as int, (n - 1) as nat),
    }
}

pub open spec fn fields_bounded(s: Seq<Shape>, rs: Seq<DataTypeRef>, n: nat) -> bool
    decreases n, 1nat, rs.len(),
{
    rs.len() == 0 || (fields_bounded(s, rs.drop_last(), n) && ref_bounded(s, rs.last(), n))
}

pub open spec fn shape_bounded(s: Seq<Shape>, k: int, n: nat) -> bool
    decreases n, 2nat, 0nat,
{
    0 <= k < s.len() && match s[k] {
        Shape::Struct(rs) => fields_bounded(s, rs, n),
        Shape::Enum => true,
        Shape::Alias(r) => ref_bounded(s, r, n),
        Shape::Other => false,
    }
}

/// Declaration `k` is a data type of finite size: no chain of references
/// from it goes on forever.
pub open spec fn shape_finite(s: Seq<Shape>, k: int) -> bool {
    exists|n: nat| shape_bounded(s, k, n)
}

pub open spec fn is_data_shape(sh: Shape) -> bool {
    !(sh is Other)
}

/// The indices that name no data type: declarations that are not data types,
/// and indices past the last declaration.
pub open spec fn not_data(s: Seq<Shape>) -> Set<int> {
    Set::new(|j: int| !(0 <= j < s.len() && is_data_shape(s[j])))
}

/// The size of every finite data type fits in a `usize`.
pub open spec fn layouts_fit(s: Seq<Shape>) -> bool {
    forall|k: int, n: nat| #[trigger] shape_bounded(s, k, n) ==> shape_layout(s, k, n).0 <= usize::MAX
}

// ---------------------------------------------------------------------------
// Lemmas

/// More fuel never changes a layout that was already bounded.
pub proof fn lemma_ref_stable(s: Seq<Shape>, r: DataTypeRef, n: nat, m: nat)
    requires
        ref_bounded(s, r, n),
        n <= m,
    ensures
        ref_bounded(s, r, m),
        ref_layout(s, r, n) == ref_layout(s, r, m),
    decreases n, 0nat, 0nat,
{
    match r {
        DataTypeRef::Atom(_) => {},
        DataTypeRef::Defined(id) => {
            lemma_shape_stable(s, id.0 as int, (n - 1) as nat, (m - 1) as nat);
        },
    }
}

pub proof fn lemma_fields_stable(s: Seq<Shape>, rs: Seq<DataTypeRef>, n: nat, m: nat)
    requires
        fields_bounded(s, rs, n),
        n <= m,
    ensures
        fields_bounded(s, rs, m),
        fields_layout(s, rs, n) == fields_layout(s, rs, m),
    decreases n, 1nat, rs.len(),
{
    if rs.len() > 0 {
        lemma_fields_stable(s, rs.drop_last(), n, m);
        lemma_ref_stable(s, rs.last(), n, m);
    }
}

pub proof fn lemma_shape_stable(s: Seq<Shape>, k: int, n: nat, m: nat)
    requires
        shape_bounded(s, k, n),
        n <= m,
    ensures
        shape_bounded(s, k, m),
        shape_layout(s, k, n) == shape_layout(s, k, m),
    decreases n, 2nat, 0nat,
{
    match s[k] {
        Shape::Struct(rs) => lemma_fields_stable(s, rs, n, m),
        Shape::Alias(r) => lemma_ref_stable(s, r, n, m),
        _ => {},
    }
}

} // verus!

verus! {

/// Alignments are always one of the atom sizes.
pub open spec fn valid_align(a: nat) -> bool {
    a == 1 || a == 2 || a == 4 || a == 8
}

pub proof fn lemma_ref_align(s: Seq<Shape>, r: DataTypeRef, n: nat)
    ensures
        valid_align(ref_layout(s, r, n).1),
    decreases n, 0nat, 0nat,
{
    match r {
        DataTypeRef::Atom(_) => {},
        DataTypeRef::Defined(id) => {
            if n > 0 {
                lemma_shape_align(s, id.0 as int, (n - 1) as nat);
            }
        },
    }
}

pub proof fn lemma_fields_align(s: Seq<Shape>, rs: Seq<DataTypeRef>, n: nat)
    ensures
        valid_align(fields_layout(s, rs, n).1),
    decreases n, 1nat, rs.len(),
{
    if rs.len() > 0 {
        lemma_fields_align(s, rs.drop_last(), n);
        lemma_ref_align(s, rs.last(), n);
    }
}

pub proof fn lemma_shape_align(s: Seq<Shape>, k: int, n: nat)
    ensures
        valid_align(shape_layout(s, k, n).1),
    decreases n, 2nat, 0nat,
{
    if 0 <= k < s.len() {
        match s[k] {
            Shape::Struct(rs) => lemma_fields_align(s, rs, n),
            Shape::Alias(r) => lemma_ref_align(s, r, n),
            _ => {},
        }
    }
}

pub proof fn lemma_align_up(x: nat, a: nat)
    requires
        a > 0,
    ensures
        x <= align_up(x, a) < x + a,
{
}

/// A struct's fields are bounded exactly when each of them is.
pub proof fn lemma_fields_bounded_all(s: Seq<Shape>, rs: Seq<DataTypeRef>, n: nat)
    ensures
        fields_bounded(s, rs, n) <==> forall|i: int| 0 <= i < rs.len() ==> ref_bounded(s, #[trigger] rs[i], n),
    decreases rs.len(),
{
    if rs.len() > 0 {
        let p = rs.drop_last();
        lemma_fields_bounded_all(s, p, n);
        if forall|i: int| 0 <= i < rs.len() ==> ref_bounded(s, #[trigger] rs[i], n) {
            assert forall|i: int| 0 <= i < p.len() implies ref_bounded(s, #[trigger] p[i], n) by {
                assert(p[i] == rs[i]);
            }
            assert(ref_bounded(s, rs[rs.len() - 1], n));
        }
        if fields_bounded(s, rs, n) {
            assert forall|i: int| 0 <= i < rs.len() implies ref_bounded(s, #[trigger] rs[i], n) by {
                if i < p.len() {
                    assert(p[i] == rs[i]);
                }
            }
        }
    }
}

/// The end of a prefix of the fields never lies past the end of all of them.
pub proof fn lemma_fields_prefix(s: Seq<Shape>, rs: Seq<DataTypeRef>, i: int, n: nat)
    requires
        0 <= i <= rs.len(),
    ensures
        fields_layout(s, rs.take(i), n).0 <= fields_layout(s, rs, n).0,
    decreases rs.len(),
{
    if i == rs.len() {
        assert(rs.take(i) =~= rs);
    } else {
        assert(rs.drop_last().take(i) =~= rs.take(i));
        lemma_fields_prefix(s, rs.drop_last(), i, n);
        lemma_fields_align(s, rs.drop_last(), n);
        lemma_ref_align(s, rs.last(), n);
        lemma_align_up(fields_layout(s, rs.drop_last(), n).0, ref_layout(s, rs.last(), n).1);
    }
}

pub open spec fn refs_of(sh: Shape) -> Seq<DataTypeRef> {
    match sh {
        Shape::Struct(rs) => rs,
        Shape::Alias(r) => seq![r],
        _ => Seq::empty(),
    }
}

/// Declaration `k` refers to some declaration in `u`.
pub open spec fn refers_into(s: Seq<Shape>, k: int, u: Set<int>) -> bool {
    exists|t: int|
        0 <= t < refs_of(s[k]).len() && (#[trigger] refs_of(s[k])[t]) is Defined && u.contains(
            refs_of(s[k])[t]->Defined_0.0 as int,
        )
}

/// If every declaration of `u` refers to a declaration of `u` or to something
/// that is not a data type, no declaration of `u` is bounded: its chains of
/// references never end.
pub proof fn lemma_closed_unbounded(s: Seq<Shape>, u: Set<int>, n: nat)
    requires
        forall|k: int| #[trigger] u.contains(k) ==> refers_into(s, k, u.union(not_data(s))),
    ensures
        forall|k: int| #[trigger] u.contains(k) ==> !shape_bounded(s, k, n),
    decreases n,
{
    let w = u.union(not_data(s));
    assert forall|k: int| #[trigger] u.contains(k) implies !shape_bounded(s, k, n) by {
        if shape_bounded(s, k, n) {
            let t = choose|t: int|
                0 <= t < refs_of(s[k]).len() && (#[trigger] refs_of(s[k])[t]) is Defined
                    && w.contains(refs_of(s[k])[t]->Defined_0.0 as int);
            let r = refs_of(s[k])[t];
            let j = r->Defined_0.0 as int;
            match s[k] {
                Shape::Struct(rs) => {
                    lemma_fields_bounded_all(s, rs, n);
                    assert(ref_bounded(s, rs[t], n));
                },
                Shape::Alias(a) => {
                    assert(ref_bounded(s, a, n));
                },
                _ => {},
            }
            assert(n > 0 && shape_bounded(s, j, (n - 1) as nat));
            if u.contains(j) {
                lemma_closed_unbounded(s, u, (n - 1) as nat);
            }
        }
    }
}

} // verus!

verus! {

/// A struct member whose type reference has been resolved.
#[derive(Debug)]
pub struct StructMemberIR {
    pub type_: DataTypeRef,
    pub name: String,
}

#[derive(Debug)]
pub struct StructIR {
    pub members: Vec<StructMemberIR>,
}

#[derive(Debug)]
pub struct EnumIR {
    pub members: Vec<EnumMember>,
}

#[derive(Debug)]
pub struct AliasIR {
    pub to: DataTypeRef,
}

/// A data type declaration whose references have been resolved, before layout.
#[derive(Debug)]
pub enum VariantIR {
    Struct(StructIR),
    Enum(EnumIR),
    Alias(AliasIR),
}

pub open spec fn member_types(ms: Seq<StructMemberIR>) -> Seq<DataTypeRef> {
    ms.map_values(|m: StructMemberIR| m.type_)
}

pub open spec fn variant_shape(v: VariantIR) -> Shape {
    match v {
        VariantIR::Struct(si) => Shape::Struct(member_types(si.members@)),
        VariantIR::Enum(_) => Shape::Enum,
        VariantIR::Alias(ai) => Shape::Alias(ai.to),
    }
}

/// The members of a struct, laid out with `n` references of fuel.
pub open spec fn members_laid_out(
    s: Seq<Shape>,
    ir: Seq<StructMemberIR>,
    out: Seq<StructMember>,
    n: nat,
) -> bool {
    &&& out.len() == ir.len()
    &&& forall|i: int|
        0 <= i < ir.len() ==> {
            &&& (#[trigger] out[i]).name@ == ir[i].name@
            &&& out[i].type_ == ir[i].type_
            &&& out[i].offset == field_offset(s, member_types(ir), i, n)
        }
}

pub open spec fn variant_laid_out(s: Seq<Shape>, v: VariantIR, dv: DataTypeVariant, n: nat) -> bool {
    match (v, dv) {
        (VariantIR::Struct(si), DataTypeVariant::Struct(sd)) => members_laid_out(
            s,
            si.members@,
            sd.members@,
            n,
        ),
        (VariantIR::Enum(ei), DataTypeVariant::Enum(ed)) => {
            &&& ed.members.len() == ei.members.len()
            &&& forall|i: int|
                0 <= i < ei.members.len() ==> (#[trigger] ed.members@[i]).name@
                    == ei.members@[i].name@
        },
        (VariantIR::Alias(ai), DataTypeVariant::Alias(ad)) => ad.to == ai.to,
        _ => false,
    }
}

/// `dt` is the data type that declaration `k`, with resolved form `v`, has
/// when laid out with `n` references of fuel.
pub open spec fn laid_out_at(s: Seq<Shape>, k: int, v: VariantIR, dt: DataType, n: nat) -> bool {
    &&& shape_layout(s, k, n) == (dt.repr_size as nat, dt.align as nat)
    &&& variant_laid_out(s, v, dt.variant, n)
}

/// `dt` is the data type that declaration `k` has, whatever fuel suffices to
/// lay it out.
pub open spec fn laid_out(s: Seq<Shape>, k: int, v: VariantIR, dt: DataType) -> bool {
    forall|n: nat| #[trigger] shape_bounded(s, k, n) ==> laid_out_at(s, k, v, dt, n)
}

/// The resolved declarations of a module, indexed by identifier, waiting to be
/// checked for finiteness and laid out.
pub struct DataTypeModuleBuilder {
    pub data_types: Vec<Option<VariantIR>>,
}

/// The shapes of `count` declarations, where only the entries of `entries`
/// are data types.
pub open spec fn entries_shapes(entries: Seq<Option<VariantIR>>, count: nat) -> Seq<Shape> {
    Seq::new(
        count,
        |k: int|
            if k < entries.len() && entries[k] is Some {
                variant_shape(entries[k]->Some_0)
            } else {
                Shape::Other
            },
    )
}

/// Facts about reference `r` once everything it names is laid out in `done`.
pub open spec fn ref_known(s: Seq<Shape>, r: DataTypeRef, done: Map<usize, DataType>, f: nat) -> bool {
    &&& ref_bounded(s, r, f)
    &&& match r {
        DataTypeRef::Defined(id) => {
            &&& done.contains_key(id.0)
            &&& ref_layout(s, r, f) == (done[id.0].repr_size as nat, done[id.0].align as nat)
        },
        DataTypeRef::Atom(_) => true,
    }
}

/// Size and alignment of a reference whose target is already laid out.
fn ref_size_align(
    r: &DataTypeRef,
    done: &HashMap<usize, DataType>,
    Ghost(s): Ghost<Seq<Shape>>,
    Ghost(f): Ghost<nat>,
) -> (res: (usize, usize))
    requires
        ref_known(s, *r, done@, f),
    ensures
        res.0 as nat == ref_layout(s, *r, f).0,
        res.1 as nat == ref_layout(s, *r, f).1,
        valid_align(res.1 as nat),
{
    proof {
        lemma_ref_align(s, *r, f);
    }
    match r {
        DataTypeRef::Atom(a) => {
            let sz = a.repr_size();
            (sz, sz)
        },
        DataTypeRef::Defined(id) => {
            let dt = done.get(&id.0).unwrap();
            (dt.repr_size, dt.align)
        },
    }
}

/// Whether every declaration that `v` refers to is laid out in `done`.
fn refs_done(v: &VariantIR, done: &HashMap<usize, DataType>) -> (b: bool)
    ensures
        b == forall|t: int|
            0 <= t < refs_of(variant_shape(*v)).len() && (#[trigger] refs_of(
                variant_shape(*v),
            )[t]) is Defined ==> done@.contains_key(refs_of(variant_shape(*v))[t]->Defined_0.0),
{
    match v {
        VariantIR::Struct(si) => {
            let ghost rs = member_types(si.members@);
            let mut i: usize = 0;
            while i < si.members.len()
                invariant
                    0 <= i <= si.members.len(),
                    rs == member_types(si.members@),
                    refs_of(variant_shape(*v)) == rs,
                    forall|t: int|
                        0 <= t < i && (#[trigger] rs[t]) is Defined ==> done@.contains_key(
                            rs[t]->Defined_0.0,
                        ),
                decreases si.members.len() - i,
            {
                match &si.members[i].type_ {
                    DataTypeRef::Defined(id) => {
                        if !done.contains_key(&id.0) {
                            assert(refs_of(variant_shape(*v)) == rs);
                            assert(rs[i as int] == si.members@[i as int].type_);
                            assert(rs[i as int] is Defined && !done@.contains_key(
                                rs[i as int]->Defined_0.0,
                            ));
                            return false;
                        }
                    },
                    DataTypeRef::Atom(_) => {},
                }
                i = i + 1;
            }
            assert(refs_of(variant_shape(*v)) == rs);
            true
        },
        VariantIR::Enum(_) => true,
        VariantIR::Alias(ai) => {
            match &ai.to {
                DataTypeRef::Defined(id) => {
                    let b = done.contains_key(&id.0);
                    proof {
                        let rs = refs_of(variant_shape(*v));
                        assert(rs[0] == ai.to);
                    }
                    b
                },
                DataTypeRef::Atom(_) => true,
            }
        },
    }
}

} // verus!

verus! {

/// Copies the member names of an enum.
fn copy_enum_members(ms: &Vec<EnumMember>) -> (out: Vec<EnumMember>)
    ensures
        out.len() == ms.len(),
        forall|i: int| 0 <= i < ms.len() ==> (#[trigger] out@[i]).name@ == ms@[i].name@,
{
    let mut out: Vec<EnumMember> = Vec::new();
    let mut i: usize = 0;
    while i < ms.len()
        invariant
            0 <= i <= ms.len(),
            out.len() == i,
            forall|t: int| 0 <= t < i ==> (#[trigger] out@[t]).name@ == ms@[t].name@,
        decreases ms.len() - i,
    {
        out.push(EnumMember { name: ms[i].name.clone() });
        i = i + 1;
    }
    out
}

/// Rounds `x` up to a multiple of `a`.
fn align_up_exec(x: usize, a: usize, Ghost(bound): Ghost<nat>) -> (r: usize)
    requires
        a > 0,
        align_up(x as nat, a as nat) <= bound,
        bound <= usize::MAX,
    ensures
        r as nat == align_up(x as nat, a as nat),
{
    let rem = x % a;
    if rem == 0 {
        x
    } else {
        x + (a - rem)
    }
}

/// Lays out declaration `k`, every reference of which is already laid out in
/// `done`; the layout uses `f` references of fuel.
fn lay_out(
    v: &VariantIR,
    done: &HashMap<usize, DataType>,
    Ghost(s): Ghost<Seq<Shape>>,
    Ghost(k): Ghost<int>,
    Ghost(f): Ghost<nat>,
) -> (dt: DataType)
    requires
        0 <= k < s.len(),
        s[k] == variant_shape(*v),
        forall|t: int|
            0 <= t < refs_of(s[k]).len() ==> ref_known(s, #[trigger] refs_of(s[k])[t], done@, f),
        layouts_fit(s),
    ensures
        shape_bounded(s, k, f),
        laid_out_at(s, k, *v, dt, f),
{
    match v {
        VariantIR::Struct(si) => {
            let ghost rs = member_types(si.members@);
            proof {
                assert(refs_of(s[k]) == rs);
                assert forall|t: int| 0 <= t < rs.len() implies ref_bounded(s, #[trigger] rs[t], f) by {
                    assert(ref_known(s, refs_of(s[k])[t], done@, f));
                }
                lemma_fields_bounded_all(s, rs, f);
                assert(shape_bounded(s, k, f));
                lemma_fields_align(s, rs, f);
                lemma_align_up(fields_layout(s, rs, f).0, fields_layout(s, rs, f).1);
                assert(rs.take(0) =~= Seq::<DataTypeRef>::empty());
            }
            let ghost total = shape_layout(s, k, f).0;
            let mut members: Vec<StructMember> = Vec::new();
            let mut end: usize = 0;
            let mut align: usize = 1;
            let mut i: usize = 0;
            while i < si.members.len()
                invariant
                    0 <= i <= si.members.len(),
                    rs == member_types(si.members@),
                    rs.len() == si.members.len(),
                    forall|t: int| 0 <= t < rs.len() ==> ref_known(s, #[trigger] rs[t], done@, f),
                    end as nat == fields_layout(s, rs.take(i as int), f).0,
                    align as nat == fields_layout(s, rs.take(i as int), f).1,
                    fields_layout(s, rs, f).0 <= total,
                    total <= usize::MAX,
                    members.len() == i,
                    forall|t: int|
                        0 <= t < i ==> {
                            &&& (#[trigger] members@[t]).name@ == si.members@[t].name@
                            &&& members@[t].type_ == si.members@[t].type_
                            &&& members@[t].offset == field_offset(s, rs, t, f)
                        },
                decreases si.members.len() - i,
            {
                assert(rs[i as int] == si.members@[i as int].type_);
                let (fs, fa) = ref_size_align(&si.members[i].type_, done, Ghost(s), Ghost(f));
                proof {
                    assert(rs.take(i + 1).drop_last() =~= rs.take(i as int));
                    assert(rs.take(i + 1).last() == rs[i as int]);
                    lemma_fields_prefix(s, rs, i + 1, f);
                    lemma_align_up(end as nat, fa as nat);
                    lemma_fields_align(s, rs.take(i as int), f);
                }
                let off = align_up_exec(end, fa, Ghost(total));
                members.push(
                    StructMember { name: si.members[i].name.clone(), type_: si.members[i].type_, offset: off },
                );
                end = off + fs;
                if align < fa {
                    align = fa;
                }
                i = i + 1;
            }
            proof {
                assert(rs.take(i as int) =~= rs);
                lemma_fields_align(s, rs, f);
            }
            let size = align_up_exec(end, align, Ghost(total));
            DataType {
                variant: DataTypeVariant::Struct(StructDataType { members }),
                repr_size: size,
                align,
            }
        },
        VariantIR::Enum(ei) => {
            let members = copy_enum_members(&ei.members);
            DataType { variant: DataTypeVariant::Enum(EnumDataType { members }), repr_size: 4, align: 4 }
        },
        VariantIR::Alias(ai) => {
            proof {
                assert(refs_of(s[k])[0] == ai.to);
            }
            let (sz, al) = ref_size_align(&ai.to, done, Ghost(s), Ghost(f));
            DataType { variant: DataTypeVariant::Alias(AliasDataType { to: ai.to }), repr_size: sz, align: al }
        },
    }
}

} // verus!

verus! {

pub open spec fn count_true(b: Seq<bool>) -> nat
    decreases b.len(),
{
    if b.len() == 0 {
        0
    } else {
        count_true(b.drop_last()) + if b.last() {
            1nat
        } else {
            0nat
        }
    }
}

proof fn lemma_count_le(b: Seq<bool>)
    ensures
        count_true(b) <= b.len(),
    decreases b.len(),
{
    if b.len() > 0 {
        lemma_count_le(b.drop_last());
    }
}

proof fn lemma_count_update(b: Seq<bool>, k: int)
    requires
        0 <= k < b.len(),
        !b[k],
    ensures
        count_true(b.update(k, true)) == count_true(b) + 1,
    decreases b.len(),
{
    let c = b.update(k, true);
    if k == b.len() - 1 {
        assert(c.drop_last() =~= b.drop_last());
    } else {
        assert(c.drop_last() =~= b.drop_last().update(k, true));
        lemma_count_update(b.drop_last(), k);
    }
}

/// Declaration `k` refers to a declaration that is not laid out yet.
pub open spec fn blocked(s: Seq<Shape>, k: int, done: Map<usize, DataType>) -> bool {
    exists|t: int|
        0 <= t < refs_of(s[k]).len() && (#[trigger] refs_of(s[k])[t]) is Defined
            && !done.contains_key(refs_of(s[k])[t]->Defined_0.0)
}

/// What holds of the declarations laid out so far: `pos` gives the place of
/// each of them in `ord`, and each is laid out with as much fuel as its place
/// plus one.
pub open spec fn resolution_inv(
    s: Seq<Shape>,
    entries: Seq<Option<VariantIR>>,
    done: Map<usize, DataType>,
    ord: Seq<Ident>,
    pos: Map<usize, nat>,
) -> bool {
    &&& done.dom() == pos.dom()
    &&& forall|i: int|
        0 <= i < ord.len() ==> pos.contains_key(#[trigger] ord[i].0) && pos[ord[i].0] == i
    &&& forall|key: usize|
        #[trigger] pos.contains_key(key) ==> {
            &&& pos[key] < ord.len()
            &&& ord[pos[key] as int].0 == key
            &&& key < entries.len()
            &&& key < s.len()
            &&& entries[key as int] is Some
            &&& s[key as int] == variant_shape(entries[key as int]->Some_0)
            &&& shape_bounded(s, key as int, pos[key] + 1)
            &&& laid_out_at(s, key as int, entries[key as int]->Some_0, done[key], pos[key] + 1)
            &&& forall|t: int|
                0 <= t < refs_of(s[key as int]).len() && (#[trigger] refs_of(s[key as int])[t]) is Defined
                    ==> pos.contains_key(refs_of(s[key as int])[t]->Defined_0.0) && pos[refs_of(
                    s[key as int],
                )[t]->Defined_0.0] < pos[key]
        }
}

proof fn lemma_known_refs(
    s: Seq<Shape>,
    entries: Seq<Option<VariantIR>>,
    done: Map<usize, DataType>,
    ord: Seq<Ident>,
    pos: Map<usize, nat>,
    k: int,
)
    requires
        resolution_inv(s, entries, done, ord, pos),
        0 <= k < s.len(),
        !blocked(s, k, done),
    ensures
        forall|t: int|
            0 <= t < refs_of(s[k]).len() ==> ref_known(s, #[trigger] refs_of(s[k])[t], done, (ord.len() + 1) as nat),
{
    assert forall|t: int| 0 <= t < refs_of(s[k]).len() implies ref_known(
        s,
        #[trigger] refs_of(s[k])[t],
        done,
        (ord.len() + 1) as nat,
    ) by {
        let r = refs_of(s[k])[t];
        match r {
            DataTypeRef::Defined(id) => {
                let j = id.0;
                assert(done.contains_key(j));
                assert(pos.contains_key(j));
                lemma_shape_stable(s, j as int, pos[j] + 1, ord.len() as nat);
            },
            DataTypeRef::Atom(_) => {},
        }
    }
}

proof fn lemma_offsets_stable(s: Seq<Shape>, rs: Seq<DataTypeRef>, lo: nat, hi: nat)
    requires
        fields_bounded(s, rs, lo),
        lo <= hi,
    ensures
        forall|i: int| 0 <= i < rs.len() ==> #[trigger] field_offset(s, rs, i, lo) == field_offset(s, rs, i, hi),
{
    lemma_fields_bounded_all(s, rs, lo);
    assert forall|i: int| 0 <= i < rs.len() implies #[trigger] field_offset(s, rs, i, lo) == field_offset(
        s,
        rs,
        i,
        hi,
    ) by {
        let p = rs.take(i);
        assert forall|t: int| 0 <= t < p.len() implies ref_bounded(s, #[trigger] p[t], lo) by {
            assert(p[t] == rs[t]);
        }
        lemma_fields_bounded_all(s, p, lo);
        lemma_fields_stable(s, p, lo, hi);
        lemma_ref_stable(s, rs[i], lo, hi);
    }
}

/// A layout found with enough fuel is the layout with any fuel that suffices.
pub proof fn lemma_laid_out_any(s: Seq<Shape>, k: int, v: VariantIR, dt: DataType, a: nat)
    requires
        0 <= k < s.len(),
        s[k] == variant_shape(v),
        shape_bounded(s, k, a),
        laid_out_at(s, k, v, dt, a),
    ensures
        laid_out(s, k, v, dt),
{
    assert forall|n: nat| #[trigger] shape_bounded(s, k, n) implies laid_out_at(s, k, v, dt, n) by {
        if a <= n {
            lemma_shape_stable(s, k, a, n);
            if let VariantIR::Struct(si) = v {
                lemma_offsets_stable(s, member_types(si.members@), a, n);
            }
        } else {
            lemma_shape_stable(s, k, n, a);
            if let VariantIR::Struct(si) = v {
                lemma_offsets_stable(s, member_types(si.members@), n, a);
            }
        }
    }
}

pub open spec fn first_infinite(s: Seq<Shape>, k: int) -> bool {
    &&& 0 <= k < s.len()
    &&& is_data_shape(s[k])
    &&& !shape_finite(s, k)
    &&& forall|j: int| 0 <= j < k && is_data_shape(#[trigger] s[j]) ==> shape_finite(s, j)
}

pub open spec fn all_finite(s: Seq<Shape>) -> bool {
    forall|k: int| 0 <= k < s.len() && is_data_shape(#[trigger] s[k]) ==> shape_finite(s, k)
}

/// `ord` lists every laid-out data type once, each after those it refers to.
pub open spec fn ordering_ok(s: Seq<Shape>, done: Map<usize, DataType>, ord: Seq<Ident>) -> bool {
    &&& forall|i: int, j: int| 0 <= i < j < ord.len() ==> ord[i] != ord[j]
    &&& forall|i: int| 0 <= i < ord.len() ==> done.contains_key(#[trigger] ord[i].0)
    &&& forall|key: usize| #[trigger] done.contains_key(key) ==> exists|i: int| 0 <= i < ord.len() && ord[i].0 == key
    &&& forall|i: int, t: int|
        0 <= i < ord.len() && 0 <= t < refs_of(s[ord[i].0 as int]).len() && (#[trigger] refs_of(
            s[ord[i].0 as int],
        )[t]) is Defined ==> exists|i2: int|
            0 <= i2 < i && ord[i2] == refs_of(s[ord[i].0 as int])[t]->Defined_0
}

/// The outcome of checking and laying out the data types of a module.
pub open spec fn validation_outcome(
    s: Seq<Shape>,
    entries: Seq<Option<VariantIR>>,
    names: Seq<Name>,
    res: Result<(HashMap<usize, DataType>, Vec<Ident>), ValidationError>,
) -> bool {
    match res {
        Err(e) => exists|k: int|
            #[trigger] first_infinite(s, k) && (e matches ValidationError::Infinite { name, location }
                && name@ == names[k].name@ && location == names[k].location),
        Ok((done, ord)) => {
            &&& all_finite(s)
            &&& forall|key: usize|
                #[trigger] done@.contains_key(key) <==> (key < s.len() && is_data_shape(s[key as int]))
            &&& forall|key: usize|
                #[trigger] done@.contains_key(key) ==> laid_out(
                    s,
                    key as int,
                    entries[key as int]->Some_0,
                    done@[key],
                )
            &&& ordering_ok(s, done@, ord@)
        },
    }
}

impl DataTypeModuleBuilder {
    pub open spec fn shapes(&self, count: nat) -> Seq<Shape> {
        entries_shapes(self.data_types@, count)
    }

    pub fn new() -> (b: Self)
        ensures
            b.data_types@.len() == 0,
    {
        DataTypeModuleBuilder { data_types: Vec::new() }
    }

    /// Records the resolved form of data type `id`.
    pub fn define(&mut self, id: Ident, variant: VariantIR)
        ensures
            final(self).data_types@.len() == if id.0 < old(self).data_types@.len() {
                old(self).data_types@.len() as int
            } else {
                id.0 + 1
            },
            final(self).data_types@[id.0 as int] == Some(variant),
            forall|k: int|
                0 <= k < final(self).data_types@.len() && k != id.0 ==> #[trigger] final(self).data_types@[k]
                    == if k < old(self).data_types@.len() {
                    old(self).data_types@[k]
                } else {
                    None
                },
    {
        while self.data_types.len() <= id.0
            invariant
                old(self).data_types@.len() <= self.data_types@.len(),
                self.data_types@.len() > old(self).data_types@.len() ==> self.data_types@.len() <= id.0 + 1,
                forall|k: int|
                    0 <= k < self.data_types@.len() ==> #[trigger] self.data_types@[k] == if k < old(
                        self,
                    ).data_types@.len() {
                        old(self).data_types@[k]
                    } else {
                        None
                    },
            decreases id.0 + 1 - self.data_types@.len(),
        {
            self.data_types.push(None);
        }
        self.data_types.set(id.0, Some(variant));
    }
}

} // verus!

verus! {

proof fn lemma_inv_insert(
    s: Seq<Shape>,
    entries: Seq<Option<VariantIR>>,
    done: Map<usize, DataType>,
    ord: Seq<Ident>,
    pos: Map<usize, nat>,
    k: usize,
    dt: DataType,
)
    requires
        resolution_inv(s, entries, done, ord, pos),
        k < entries.len(),
        k < s.len(),
        entries[k as int] is Some,
        s[k as int] == variant_shape(entries[k as int]->Some_0),
        !done.contains_key(k),
        !blocked(s, k as int, done),
        shape_bounded(s, k as int, (ord.len() + 1) as nat),
        laid_out_at(s, k as int, entries[k as int]->Some_0, dt, (ord.len() + 1) as nat),
    ensures
        resolution_inv(
            s,
            entries,
            done.insert(k, dt),
            ord.push(Ident(k)),
            pos.insert(k, ord.len() as nat),
        ),
{
    let done2 = done.insert(k, dt);
    let ord2 = ord.push(Ident(k));
    let pos2 = pos.insert(k, ord.len() as nat);
    assert(done2.dom() =~= pos2.dom());
    assert forall|i: int| 0 <= i < ord2.len() implies pos2.contains_key(#[trigger] ord2[i].0) && pos2[ord2[i].0]
        == i by {
        if i < ord.len() {
            assert(ord2[i] == ord[i]);
            assert(pos.contains_key(ord[i].0));
        }
    }
    assert forall|key: usize| #[trigger] pos2.contains_key(key) implies {
        &&& pos2[key] < ord2.len()
        &&& ord2[pos2[key] as int].0 == key
        &&& key < entries.len()
        &&& key < s.len()
        &&& entries[key as int] is Some
        &&& s[key as int] == variant_shape(entries[key as int]->Some_0)
        &&& shape_bounded(s, key as int, pos2[key] + 1)
        &&& laid_out_at(s, key as int, entries[key as int]->Some_0, done2[key], pos2[key] + 1)
        &&& forall|t: int|
            0 <= t < refs_of(s[key as int]).len() && (#[trigger] refs_of(s[key as int])[t]) is Defined
                ==> pos2.contains_key(refs_of(s[key as int])[t]->Defined_0.0) && pos2[refs_of(
                s[key as int],
            )[t]->Defined_0.0] < pos2[key]
    } by {
        if key == k {
            assert forall|t: int|
                0 <= t < refs_of(s[key as int]).len() && (#[trigger] refs_of(
                    s[key as int],
                )[t]) is Defined implies pos2.contains_key(refs_of(s[key as int])[t]->Defined_0.0)
                && pos2[refs_of(s[key as int])[t]->Defined_0.0] < pos2[key] by {
                let j = refs_of(s[key as int])[t]->Defined_0.0;
                assert(done.contains_key(j));
                assert(pos.contains_key(j));
            }
        } else {
            assert(pos.contains_key(key));
            assert(ord2[pos[key] as int] == ord[pos[key] as int]);
            assert forall|t: int|
                0 <= t < refs_of(s[key as int]).len() && (#[trigger] refs_of(
                    s[key as int],
                )[t]) is Defined implies pos2.contains_key(refs_of(s[key as int])[t]->Defined_0.0)
                && pos2[refs_of(s[key as int])[t]->Defined_0.0] < pos2[key] by {
                let j = refs_of(s[key as int])[t]->Defined_0.0;
                assert(pos.contains_key(j));
            }
        }
    }
}

impl DataTypeModuleBuilder {
    /// Checks that no data type contains itself and lays every data type out,
    /// each after the data types it refers to. `names` holds the name of each
    /// declaration, by identifier.
    pub fn validate_datatypes(self, names: &Vec<Name>) -> (res: Result<
        (HashMap<usize, DataType>, Vec<Ident>),
        ValidationError,
    >)
        requires
            self.data_types@.len() <= names@.len(),
            layouts_fit(self.shapes(names@.len() as nat)),
        ensures
            validation_outcome(self.shapes(names@.len() as nat), self.data_types@, names@, res),
    {
        let ghost s = self.shapes(names@.len() as nat);
        let ghost entries = self.data_types@;
        let len = self.data_types.len();
        let mut done: HashMap<usize, DataType> = HashMap::new();
        let mut ord: Vec<Ident> = Vec::new();
        let mut resolved: Vec<bool> = Vec::new();
        let ghost mut pos: Map<usize, nat> = Map::empty();
        while resolved.len() < len
            invariant
                resolved@.len() <= len,
                forall|k: int| 0 <= k < resolved@.len() ==> !#[trigger] resolved@[k],
            decreases len - resolved@.len(),
        {
            resolved.push(false);
        }
        proof {
            assert(count_true(resolved@) == 0) by {
                lemma_no_true(resolved@);
            }
            assert(done@.dom() =~= pos.dom());
        }
        let mut changed = true;
        while changed
            invariant
                s == self.shapes(names@.len() as nat),
                entries == self.data_types@,
                len == entries.len(),
                len <= s.len(),
                s.len() == names@.len(),
                layouts_fit(s),
                resolution_inv(s, entries, done@, ord@, pos),
                resolved@.len() == len,
                forall|k: int| 0 <= k < len ==> #[trigger] resolved@[k] == done@.contains_key(k as usize),
                ord@.len() == count_true(resolved@),
                !changed ==> forall|k: int|
                    0 <= k < len && #[trigger] entries[k] is Some && !done@.contains_key(k as usize)
                        ==> blocked(s, k, done@),
            decreases len - count_true(resolved@) + if changed {
                1int
            } else {
                0int
            },
        {
            proof {
                lemma_count_le(resolved@);
            }
            changed = false;
            let ghost start = count_true(resolved@);
            let ghost done0 = done@;
            let mut k: usize = 0;
            while k < len
                invariant
                    s == self.shapes(names@.len() as nat),
                    entries == self.data_types@,
                    len == entries.len(),
                    len <= s.len(),
                        layouts_fit(s),
                    resolution_inv(s, entries, done@, ord@, pos),
                    resolved@.len() == len,
                    forall|k: int| 0 <= k < len ==> #[trigger] resolved@[k] == done@.contains_key(k as usize),
                    ord@.len() == count_true(resolved@),
                    0 <= k <= len,
                    start <= len,
                    count_true(resolved@) <= len,
                    changed ==> count_true(resolved@) > start,
                    !changed ==> done@ == done0 && count_true(resolved@) == start,
                    !changed ==> forall|j: int|
                        0 <= j < k && #[trigger] entries[j] is Some && !done@.contains_key(j as usize)
                            ==> blocked(s, j, done@),
                decreases len - k,
            {
                if !resolved[k] {
                    if let Some(v) = &self.data_types[k] {
                        if refs_done(v, &done) {
                            let ghost f = (ord@.len() + 1) as nat;
                            proof {
                                assert(s[k as int] == variant_shape(*v));
                                lemma_known_refs(s, entries, done@, ord@, pos, k as int);
                            }
                            let dt = lay_out(v, &done, Ghost(s), Ghost(k as int), Ghost(f));
                            proof {
                                lemma_inv_insert(s, entries, done@, ord@, pos, k, dt);
                                lemma_count_update(resolved@, k as int);
                                lemma_count_le(resolved@.update(k as int, true));
                                pos = pos.insert(k, ord@.len() as nat);
                            }
                            done.insert(k, dt);
                            ord.push(Ident(k));
                            resolved.set(k, true);
                            changed = true;
                        } else {
                            proof {
                                assert(s[k as int] == variant_shape(*v));
                            }
                        }
                    }
                }
                k = k + 1;
            }
        }
        let mut k: usize = 0;
        while k < len
            invariant
                s == self.shapes(names@.len() as nat),
                entries == self.data_types@,
                len == entries.len(),
                len <= s.len(),
                s.len() == names@.len(),
                resolution_inv(s, entries, done@, ord@, pos),
                resolved@.len() == len,
                forall|k: int| 0 <= k < len ==> #[trigger] resolved@[k] == done@.contains_key(k as usize),
                forall|k: int|
                    0 <= k < len && #[trigger] entries[k] is Some && !done@.contains_key(k as usize)
                        ==> blocked(s, k, done@),
                0 <= k <= len,
                forall|j: int| 0 <= j < k && #[trigger] entries[j] is Some ==> done@.contains_key(j as usize),
            decreases len - k,
        {
            if !resolved[k] && self.data_types[k].is_some() {
                proof {
                    lemma_unresolved_infinite(s, entries, done@, ord@, pos, k as int);
                    lemma_resolved_finite(s, entries, done@, ord@, pos);
                    assert forall|j: int| 0 <= j < k && is_data_shape(#[trigger] s[j]) implies shape_finite(
                        s,
                        j,
                    ) by {
                        assert(entries[j] is Some);
                    }
                    assert(first_infinite(s, k as int));
                }
                return Err(
                    ValidationError::Infinite { name: names[k].name.clone(), location: names[k].location },
                );
            }
            k = k + 1;
        }
        proof {
            lemma_resolved_finite(s, entries, done@, ord@, pos);
            assert forall|j: int| 0 <= j < s.len() && is_data_shape(#[trigger] s[j]) implies shape_finite(
                s,
                j,
            ) by {
                assert(entries[j] is Some);
            }
            assert forall|key: usize| #[trigger] done@.contains_key(key) <==> (key < s.len() && is_data_shape(
                s[key as int],
            )) by {
                if key < s.len() && is_data_shape(s[key as int]) {
                    assert(entries[key as int] is Some);
                }
                if done@.contains_key(key) {
                    assert(pos.contains_key(key));
                }
            }
            assert forall|key: usize| #[trigger] done@.contains_key(key) implies laid_out(
                s,
                key as int,
                entries[key as int]->Some_0,
                done@[key],
            ) by {
                assert(pos.contains_key(key));
                lemma_laid_out_any(s, key as int, entries[key as int]->Some_0, done@[key], pos[key] + 1);
            }
            lemma_ordering(s, entries, done@, ord@, pos);
        }
        Ok((done, ord))
    }
}

proof fn lemma_no_true(b: Seq<bool>)
    requires
        forall|k: int| 0 <= k < b.len() ==> !#[trigger] b[k],
    ensures
        count_true(b) == 0,
    decreases b.len(),
{
    if b.len() > 0 {
        let p = b.drop_last();
        assert forall|k: int| 0 <= k < p.len() implies !#[trigger] p[k] by {
            assert(p[k] == b[k]);
        }
        lemma_no_true(p);
    }
}

proof fn lemma_resolved_finite(
    s: Seq<Shape>,
    entries: Seq<Option<VariantIR>>,
    done: Map<usize, DataType>,
    ord: Seq<Ident>,
    pos: Map<usize, nat>,
)
    requires
        resolution_inv(s, entries, done, ord, pos),
    ensures
        forall|key: usize| #[trigger] done.contains_key(key) ==> shape_finite(s, key as int),
{
    assert forall|key: usize| #[trigger] done.contains_key(key) implies shape_finite(s, key as int) by {
        assert(pos.contains_key(key));
        assert(shape_bounded(s, key as int, pos[key] + 1));
    }
}

proof fn lemma_unresolved_infinite(
    s: Seq<Shape>,
    entries: Seq<Option<VariantIR>>,
    done: Map<usize, DataType>,
    ord: Seq<Ident>,
    pos: Map<usize, nat>,
    k: int,
)
    requires
        resolution_inv(s, entries, done, ord, pos),
        entries.len() <= s.len(),
        s == entries_shapes(entries, s.len()),
        forall|j: int|
            0 <= j < entries.len() && #[trigger] entries[j] is Some && !done.contains_key(j as usize)
                ==> blocked(s, j, done),
        0 <= k < entries.len(),
        entries[k] is Some,
        !done.contains_key(k as usize),
    ensures
        !shape_finite(s, k),
{
    let u = Set::new(
        |j: int| 0 <= j < entries.len() && entries[j] is Some && !done.contains_key(j as usize),
    );
    let w = u.union(not_data(s));
    assert forall|j: int| #[trigger] u.contains(j) implies refers_into(s, j, w) by {
        assert(blocked(s, j, done));
        let t = choose|t: int|
            0 <= t < refs_of(s[j]).len() && (#[trigger] refs_of(s[j])[t]) is Defined
                && !done.contains_key(refs_of(s[j])[t]->Defined_0.0);
        let id = refs_of(s[j])[t]->Defined_0.0;
        if 0 <= id < s.len() && is_data_shape(s[id as int]) {
            assert(u.contains(id as int));
        } else {
            assert(not_data(s).contains(id as int));
        }
        assert(w.contains(id as int));
    }
    assert forall|n: nat| !shape_bounded(s, k, n) by {
        lemma_closed_unbounded(s, u, n);
        assert(u.contains(k));
    }
}

proof fn lemma_ordering(
    s: Seq<Shape>,
    entries: Seq<Option<VariantIR>>,
    done: Map<usize, DataType>,
    ord: Seq<Ident>,
    pos: Map<usize, nat>,
)
    requires
        resolution_inv(s, entries, done, ord, pos),
    ensures
        ordering_ok(s, done, ord),
{
    assert forall|i: int, j: int| 0 <= i < j < ord.len() implies ord[i] != ord[j] by {
        assert(pos.contains_key(ord[i].0));
        assert(pos.contains_key(ord[j].0));
    }
    assert forall|i: int| 0 <= i < ord.len() implies done.contains_key(#[trigger] ord[i].0) by {
        assert(pos.contains_key(ord[i].0));
    }
    assert forall|key: usize| #[trigger] done.contains_key(key) implies exists|i: int|
        0 <= i < ord.len() && ord[i].0 == key by {
        assert(pos.contains_key(key));
        let i = pos[key] as int;
        assert(ord[i].0 == key);
    }
    assert forall|i: int, t: int|
        0 <= i < ord.len() && 0 <= t < refs_of(s[ord[i].0 as int]).len() && (#[trigger] refs_of(
            s[ord[i].0 as int],
        )[t]) is Defined implies exists|i2: int|
        0 <= i2 < i && ord[i2] == refs_of(s[ord[i].0 as int])[t]->Defined_0 by {
        let key = ord[i].0;
        assert(pos.contains_key(key));
        let j = refs_of(s[key as int])[t]->Defined_0;
        assert(pos.contains_key(j.0));
        let i2 = pos[j.0] as int;
        assert(ord[i2].0 == j.0);
        assert(ord[i2] == j);
    }
}

} // verus!

verus! {

/// Rounding up to a positive alignment gives a multiple of it.
pub proof fn lemma_align_up_mod(x: nat, a: nat)
    requires
        a > 0,
    ensures
        align_up(x, a) % a == 0,
{
    if x % a != 0 {
        let q = x as int / a as int;
        vstd::arithmetic::div_mod::lemma_fundamental_div_mod(x as int, a as int);
        vstd::arithmetic::mul::lemma_mul_is_distributive_add(a as int, q, 1);
        vstd::arithmetic::mul::lemma_mul_is_commutative(a as int, q + 1);
        vstd::arithmetic::div_mod::lemma_mod_multiples_basic(q + 1, a as int);
        assert(align_up(x, a) == (q + 1) * a);
    }
}

/// Of two valid alignments, the larger is a multiple of the smaller.
pub proof fn lemma_align_divides(a: nat, b: nat)
    requires
        valid_align(a),
        valid_align(b),
        a <= b,
    ensures
        b % a == 0,
{
    if a == 1 {
        assert(b % 1 == 0);
    } else if a == 2 {
        assert(2nat % 2 == 0 && 4nat % 2 == 0 && 8nat % 2 == 0);
    } else if a == 4 {
        assert(4nat % 4 == 0 && 8nat % 4 == 0);
    } else {
        assert(8nat % 8 == 0);
    }
}

/// The alignment of a sequence of fields is at least each field's.
pub proof fn lemma_fields_align_max(s: Seq<Shape>, rs: Seq<DataTypeRef>, n: nat)
    ensures
        forall|i: int| 0 <= i < rs.len() ==> ref_layout(s, #[trigger] rs[i], n).1 <= fields_layout(s, rs, n).1,
    decreases rs.len(),
{
    if rs.len() > 0 {
        let p = rs.drop_last();
        lemma_fields_align_max(s, p, n);
        assert forall|i: int| 0 <= i < rs.len() implies ref_layout(s, #[trigger] rs[i], n).1 <= fields_layout(
            s,
            rs,
            n,
        ).1 by {
            if i < p.len() {
                assert(p[i] == rs[i]);
            }
        }
    }
}

/// The alignment of a sequence of fields is a multiple of each field's.
pub proof fn lemma_fields_align_divides(s: Seq<Shape>, rs: Seq<DataTypeRef>, n: nat)
    ensures
        forall|i: int|
            0 <= i < rs.len() ==> fields_layout(s, rs, n).1 % ref_layout(s, #[trigger] rs[i], n).1 == 0,
{
    lemma_fields_align_max(s, rs, n);
    lemma_fields_align(s, rs, n);
    assert forall|i: int| 0 <= i < rs.len() implies fields_layout(s, rs, n).1 % ref_layout(
        s,
        #[trigger] rs[i],
        n,
    ).1 == 0 by {
        lemma_ref_align(s, rs[i], n);
        lemma_align_divides(ref_layout(s, rs[i], n).1, fields_layout(s, rs, n).1);
    }
}

/// Field `i` ends where the prefix of the fields up to and including it ends.
pub proof fn lemma_member_end(s: Seq<Shape>, rs: Seq<DataTypeRef>, i: int, n: nat)
    requires
        0 <= i < rs.len(),
    ensures
        fields_layout(s, rs.take(i + 1), n).0 == field_offset(s, rs, i, n) + ref_layout(s, rs[i], n).0,
{
    let p = rs.take(i + 1);
    assert(p.drop_last() =~= rs.take(i));
    assert(p.last() == rs[i]);
}

/// The size of a type reference is a multiple of its alignment.
pub proof fn lemma_ref_size_multiple(s: Seq<Shape>, r: DataTypeRef, n: nat)
    ensures
        ref_layout(s, r, n).0 % ref_layout(s, r, n).1 == 0,
    decreases n, 0nat, 0nat,
{
    match r {
        DataTypeRef::Atom(a) => {
            vstd::arithmetic::div_mod::lemma_mod_self_0(atom_size(a) as int);
        },
        DataTypeRef::Defined(id) => {
            if n > 0 {
                lemma_shape_size_multiple(s, id.0 as int, (n - 1) as nat);
            }
        },
    }
}

/// The size of a declaration is a multiple of its alignment.
pub proof fn lemma_shape_size_multiple(s: Seq<Shape>, k: int, n: nat)
    ensures
        shape_layout(s, k, n).0 % shape_layout(s, k, n).1 == 0,
    decreases n, 2nat, 0nat,
{
    if 0 <= k < s.len() {
        match s[k] {
            Shape::Struct(rs) => {
                lemma_fields_align(s, rs, n);
                lemma_align_up_mod(fields_layout(s, rs, n).0, fields_layout(s, rs, n).1);
            },
            Shape::Alias(r) => lemma_ref_size_multiple(s, r, n),
            Shape::Enum => {
                assert(4nat % 4 == 0);
            },
            Shape::Other => {
                assert(0nat % 1 == 0);
            },
        }
    }
}

} // verus!

verus! {

/// The alignment of a non-empty sequence of fields is the alignment of one of
/// them.
pub proof fn lemma_fields_align_attained(s: Seq<Shape>, rs: Seq<DataTypeRef>, n: nat)
    requires
        rs.len() > 0,
    ensures
        exists|i: int| 0 <= i < rs.len() && ref_layout(s, #[trigger] rs[i], n).1 == fields_layout(s, rs, n).1,
    decreases rs.len(),
{
    let p = rs.drop_last();
    let last = rs.len() - 1;
    lemma_ref_align(s, rs[last], n);
    if p.len() == 0 {
        assert(ref_layout(s, rs[last], n).1 == fields_layout(s, rs, n).1);
    } else {
        lemma_fields_align_attained(s, p, n);
        let i = choose|i: int| 0 <= i < p.len() && ref_layout(s, #[trigger] p[i], n).1 == fields_layout(s, p, n).1;
        assert(p[i] == rs[i]);
        if fields_layout(s, p, n).1 < ref_layout(s, rs[last], n).1 {
            assert(ref_layout(s, rs[last], n).1 == fields_layout(s, rs, n).1);
        } else {
            assert(ref_layout(s, rs[i], n).1 == fields_layout(s, rs, n).1);
        }
    }
}

} // verus!
