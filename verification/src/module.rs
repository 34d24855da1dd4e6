use vstd::prelude::*;
use crate::casing::{
    binding_name, to_snake_case,
};
use crate::error::ValidationError;
use crate::layout::{
    entries_shapes, laid_out, member_types, ordering_ok, AliasIR, DataTypeModuleBuilder, EnumIR, StructIR, StructMemberIR, VariantIR,
};
use crate::syntax::{
    decl_location, decl_name, EnumVariantSyntax, FuncArgSyntax, StructMemberSyntax, SyntaxDecl, SyntaxRef,
};
use crate::types::{
    DataType, DataTypeRef, EnumMember, FuncArg, FuncDecl, Ident, Location, Name, Named,
};
use crate::validation::{
    arg_names, data_type_built, decl_field_types, decl_names, decl_ok, decl_shape, decl_shapes, declarations_valid, decls_ok, first_bad_decl, first_name_clash, func_args, func_built, layout_computable, member_fails, member_names, name_clash, names_ok, rejection, seq_has_dup, variant_names, first_index, name_in, ref_resolves_in, resolve_in, ref_error, lemma_first_index, decl_ok_in, decl_error_in,
};
use std::collections::HashMap;

verus! {

/// A validated set of declarations: data types with their layouts, and
/// functions with the names they are bound under. Entities are keyed by the
/// index of their identifier.
#[derive(Debug, PartialEq, Eq, Clone)]
pub struct Module {
    pub names: Vec<Name>,
    pub data_types: HashMap<usize, DataType>,
    pub data_type_ordering: Vec<Ident>,
    pub funcs: HashMap<usize, FuncDecl>,
    pub module_name: String,
    pub binding_prefix: String,
}

/// The names of the entries of a name table.
pub open spec fn table_names(names: Seq<Name>) -> Seq<Seq<char>> {
    names.map_values(|n: Name| n.name@)
}

/// `names[j]` is the first entry named `s`.
pub open spec fn first_name_index(names: Seq<Name>, s: Seq<char>, j: int) -> bool {
    first_index(table_names(names), s, j)
}

pub open spec fn name_absent(names: Seq<Name>, s: Seq<char>) -> bool {
    !name_in(table_names(names), s)
}

/// No two entries of the name table carry the same name.
pub open spec fn names_distinct(names: Seq<Name>) -> bool {
    forall|i: int, j: int|
        0 <= i < j < names.len() ==> (#[trigger] names[i]).name@ != (#[trigger] names[j]).name@
}

/// A name has at most one first entry in the name table, and a name that has
/// one is not absent: looking a name up has one answer.
pub proof fn law_first_name_index_unique(names: Seq<Name>, s: Seq<char>, j: int, j2: int)
    requires
        first_name_index(names, s, j),
    ensures
        !name_absent(names, s),
        first_name_index(names, s, j2) ==> j2 == j,
{
    assert(names[j].name@ == s);
    if first_name_index(names, s, j2) && j2 != j {
        if j < j2 {
            assert(names[j].name@ != s);
        } else {
            assert(names[j2].name@ != s);
        }
    }
}

impl Module {
    fn new(module_name: String, binding_prefix: String) -> (m: Self)
        ensures
            m.names@.len() == 0,
            m.data_types@ == Map::<usize, DataType>::empty(),
            m.data_type_ordering@.len() == 0,
            m.funcs@ == Map::<usize, FuncDecl>::empty(),
            m.module_name == module_name,
            m.binding_prefix == binding_prefix,
    {
        Module {
            names: Vec::new(),
            data_types: HashMap::new(),
            data_type_ordering: Vec::new(),
            funcs: HashMap::new(),
            module_name,
            binding_prefix,
        }
    }

    /// The identifier of the first name equal to `name`.
    fn id_for_name(&self, name: &String) -> (r: Option<Ident>)
        ensures
            match r {
                Some(id) => first_name_index(self.names@, name@, id.0 as int),
                None => name_absent(self.names@, name@),
            },
    {
        let mut i: usize = 0;
        while i < self.names.len()
            invariant
                0 <= i <= self.names@.len(),
                forall|j: int| 0 <= j < i ==> (#[trigger] self.names@[j]).name@ != name@,
            decreases self.names@.len() - i,
        {
            if self.names[i].name == *name {
                proof {
                    let tn = table_names(self.names@);
                    assert(tn[i as int] == name@);
                    assert forall|j: int| 0 <= j < i implies tn[j] != name@ by {
                        assert(tn[j] == self.names@[j].name@);
                    }
                }
                return Some(Ident(i));
            }
            i = i + 1;
        }
        proof {
            let tn = table_names(self.names@);
            assert forall|j: int| 0 <= j < tn.len() implies tn[j] != name@ by {
                assert(tn[j] == self.names@[j].name@);
            }
        }
        None
    }

    /// Adds `name` to the name table, unless it is there already.
    fn introduce_name(&mut self, name: &String, location: &Location) -> (r: Result<Ident, ValidationError>)
        ensures
            final(self).data_types == old(self).data_types,
            final(self).funcs == old(self).funcs,
            final(self).data_type_ordering == old(self).data_type_ordering,
            final(self).module_name == old(self).module_name,
            final(self).binding_prefix == old(self).binding_prefix,
            names_distinct(old(self).names@) ==> names_distinct(final(self).names@),
            match r {
                Ok(id) => {
                    &&& name_absent(old(self).names@, name@)
                    &&& id.0 == old(self).names@.len()
                    &&& final(self).names@ == old(self).names@.push(Name { name: *name, location: *location })
                    &&& first_name_index(final(self).names@, name@, id.0 as int)
                },
                Err(e) => {
                    &&& final(self).names@ == old(self).names@
                    &&& exists|j: int|
                        first_name_index(old(self).names@, name@, j) && (
                        e matches ValidationError::NameAlreadyExists {
                            name: n,
                            at_location,
                            previous_location,
                        } && n@ == name@ && at_location == *location && previous_location == old(
                            self,
                        ).names@[j].location)
                },
            },
    {
        match self.id_for_name(name) {
            Some(existing) => {
                let prev = &self.names[existing.0];
                Err(
                    ValidationError::NameAlreadyExists {
                        name: name.clone(),
                        at_location: *location,
                        previous_location: prev.location,
                    },
                )
            },
            None => {
                let id = self.names.len();
                self.names.push(Name { name: name.clone(), location: *location });
                proof {
                    let ns = self.names@;
                    assert(ns[id as int].name@ == name@);
                    assert forall|i: int| 0 <= i < id implies (#[trigger] ns[i]).name@ != name@ by {
                        assert(ns[i] == old(self).names@[i]);
                        assert(table_names(old(self).names@)[i] == old(self).names@[i].name@);
                    }
                    let tn = table_names(ns);
                    assert forall|i: int| 0 <= i < id implies tn[i] != name@ by {
                        assert(tn[i] == ns[i].name@);
                    }
                    assert(tn[id as int] == name@);
                    assert forall|i: int, j: int| 0 <= i < j < ns.len() && names_distinct(
                        old(self).names@,
                    ) implies (#[trigger] ns[i]).name@ != (#[trigger] ns[j]).name@ by {
                        assert(ns[i] == old(self).names@[i]);
                        if j < id {
                            assert(ns[j] == old(self).names@[j]);
                        }
                    }
                }
                Ok(Ident(id))
            },
        }
    }

    /// What a type reference written in a declaration refers to.
    fn get_ref(&self, syntax_ref: &SyntaxRef) -> (r: Result<DataTypeRef, ValidationError>)
        ensures
            match r {
                Ok(t) => ref_resolves_in(table_names(self.names@), *syntax_ref) && t == resolve_in(
                    table_names(self.names@),
                    *syntax_ref,
                ),
                Err(e) => !ref_resolves_in(table_names(self.names@), *syntax_ref) && ref_error(
                    *syntax_ref,
                    e,
                ),
            },
    {
        match syntax_ref {
            SyntaxRef::Atom { atom, .. } => Ok(DataTypeRef::Atom(*atom)),
            SyntaxRef::Name { name, location } => match self.id_for_name(name) {
                Some(id) => {
                    proof {
                        let tn = table_names(self.names@);
                        lemma_first_index(tn, name@);
                        assert(tn[id.0 as int] == name@);
                    }
                    Ok(DataTypeRef::Defined(id))
                },
                None => Err(ValidationError::NameNotFound { name: name.clone(), use_location: *location }),
            },
        }
    }
}

} // verus!

verus! {

/// `names` is the name table of the declarations `d`.
pub open spec fn names_match(d: Seq<SyntaxDecl>, names: Seq<Name>) -> bool {
    &&& names.len() == d.len()
    &&& forall|k: int|
        0 <= k < d.len() ==> (#[trigger] names[k]).name@ == decl_name(d[k]) && names[k].location
            == decl_location(d[k])
}

/// The resolved form `v` of data type declaration `decl`, its references
/// resolved against the names `ns`.
pub open spec fn entry_matches_in(ns: Seq<Seq<char>>, decl: SyntaxDecl, v: VariantIR) -> bool {
    match (decl, v) {
        (SyntaxDecl::Struct { members, .. }, VariantIR::Struct(si)) => {
            &&& si.members.len() == members.len()
            &&& forall|i: int|
                0 <= i < members.len() ==> (#[trigger] si.members@[i]).name@ == members@[i].name@
                    && si.members@[i].type_ == resolve_in(ns, members@[i].type_)
        },
        (SyntaxDecl::Enum { variants, .. }, VariantIR::Enum(ei)) => {
            &&& ei.members.len() == variants.len()
            &&& forall|i: int|
                0 <= i < variants.len() ==> (#[trigger] ei.members@[i]).name@ == variants@[i].name@
        },
        (SyntaxDecl::Alias { what, .. }, VariantIR::Alias(ai)) => ai.to == resolve_in(ns, what),
        _ => false,
    }
}

/// The resolved form `v` of data type declaration `k`.
pub open spec fn entry_matches(d: Seq<SyntaxDecl>, k: int, v: VariantIR) -> bool {
    entry_matches_in(decl_names(d), d[k], v)
}

/// The name table of declarations lists their names.
proof fn lemma_table_names(d: Seq<SyntaxDecl>, names: Seq<Name>)
    requires
        names_match(d, names),
    ensures
        table_names(names) == decl_names(d),
{
    assert forall|k: int| 0 <= k < d.len() implies table_names(names)[k] == decl_names(d)[k] by {
        assert(names[k].name@ == decl_name(d[k]));
    }
    assert(table_names(names) =~= decl_names(d));
}

pub open spec fn is_data_decl(d: SyntaxDecl) -> bool {
    d is Struct || d is Enum || d is Alias
}

/// Declarations with their own names have distinct names.
pub proof fn lemma_names_distinct(d: Seq<SyntaxDecl>)
    requires
        names_ok(d),
    ensures
        forall|i: int, j: int|
            0 <= i < d.len() && 0 <= j < d.len() && i != j ==> decl_name(#[trigger] d[i]) != decl_name(
                #[trigger] d[j],
            ),
{
    assert forall|i: int, j: int|
        0 <= i < d.len() && 0 <= j < d.len() && i != j implies decl_name(#[trigger] d[i]) != decl_name(
        #[trigger] d[j],
    ) by {
        let ns = decl_names(d);
        if i < j {
            assert(!name_clash(d, j));
            assert(ns[i] == decl_name(d[i]) && ns[j] == decl_name(d[j]));
        } else {
            assert(!name_clash(d, i));
            assert(ns[i] == decl_name(d[i]) && ns[j] == decl_name(d[j]));
        }
    }
}

fn find_member_dup(members: &Vec<StructMemberSyntax>, i: usize) -> (r: Option<usize>)
    requires
        i < members@.len(),
    ensures
        match r {
            Some(j) => j < i && members@[j as int].name@ == members@[i as int].name@,
            None => !seq_has_dup(member_names(members@), i as int),
        },
{
    let mut j: usize = 0;
    while j < i
        invariant
            j <= i < members@.len(),
            forall|t: int| 0 <= t < j ==> (#[trigger] members@[t]).name@ != members@[i as int].name@,
        decreases i - j,
    {
        if members[j].name == members[i].name {
            return Some(j);
        }
        j = j + 1;
    }
    proof {
        let ns = member_names(members@);
        assert forall|t: int| 0 <= t < i implies ns[t] != ns[i as int] by {
            assert(ns[t] == members@[t].name@);
        }
    }
    None
}

fn find_variant_dup(variants: &Vec<EnumVariantSyntax>, i: usize) -> (r: Option<usize>)
    requires
        i < variants@.len(),
    ensures
        match r {
            Some(j) => j < i && variants@[j as int].name@ == variants@[i as int].name@,
            None => !seq_has_dup(variant_names(variants@), i as int),
        },
{
    let mut j: usize = 0;
    while j < i
        invariant
            j <= i < variants@.len(),
            forall|t: int| 0 <= t < j ==> (#[trigger] variants@[t]).name@ != variants@[i as int].name@,
        decreases i - j,
    {
        if variants[j].name == variants[i].name {
            return Some(j);
        }
        j = j + 1;
    }
    proof {
        let ns = variant_names(variants@);
        assert forall|t: int| 0 <= t < i implies ns[t] != ns[i as int] by {
            assert(ns[t] == variants@[t].name@);
        }
    }
    None
}

fn find_arg_name(list: &Vec<FuncArgSyntax>, upto: usize, name: &String) -> (r: Option<usize>)
    requires
        upto <= list@.len(),
    ensures
        match r {
            Some(j) => j < upto && list@[j as int].name@ == name@,
            None => forall|j: int| 0 <= j < upto ==> (#[trigger] list@[j]).name@ != name@,
        },
{
    let mut j: usize = 0;
    while j < upto
        invariant
            j <= upto <= list@.len(),
            forall|t: int| 0 <= t < j ==> (#[trigger] list@[t]).name@ != name@,
        decreases upto - j,
    {
        if list[j].name == *name {
            return Some(j);
        }
        j = j + 1;
    }
    None
}

proof fn lemma_arg_dup(args: Seq<FuncArgSyntax>, rets: Seq<FuncArgSyntax>, j: int, i: int)
    requires
        0 <= j < i < args.len() + rets.len(),
        func_args(args, rets)[j].name@ == func_args(args, rets)[i].name@,
    ensures
        seq_has_dup(arg_names(func_args(args, rets)), i),
        crate::validation::arg_locations(func_args(args, rets))[i] == func_args(args, rets)[i].location,
        crate::validation::arg_locations(func_args(args, rets))[j] == func_args(args, rets)[j].location,
        arg_names(func_args(args, rets))[j] == arg_names(func_args(args, rets))[i],
{
    let ns = arg_names(func_args(args, rets));
    assert(ns[j] == ns[i]);
}

proof fn lemma_arg_fresh(args: Seq<FuncArgSyntax>, rets: Seq<FuncArgSyntax>, i: int)
    requires
        0 <= i < args.len() + rets.len(),
        forall|j: int| 0 <= j < i ==> (#[trigger] func_args(args, rets)[j]).name@ != func_args(args, rets)[i].name@,
    ensures
        !seq_has_dup(arg_names(func_args(args, rets)), i),
{
    let all = func_args(args, rets);
    let ns = arg_names(all);
    assert forall|j: int| 0 <= j < i implies ns[j] != ns[i] by {
        assert(ns[j] == all[j].name@);
    }
}

} // verus!

verus! {

/// How the resolved data types change when `decl`, with identifier `k`, is
/// added; its references resolved against the names `ns`.
pub open spec fn builder_after(
    ns: Seq<Seq<char>>,
    decl: SyntaxDecl,
    k: int,
    old_e: Seq<Option<VariantIR>>,
    new_e: Seq<Option<VariantIR>>,
) -> bool {
    if is_data_decl(decl) {
        &&& new_e.len() == if k < old_e.len() {
            old_e.len() as int
        } else {
            k + 1
        }
        &&& new_e[k] is Some
        &&& entry_matches_in(ns, decl, new_e[k]->Some_0)
        &&& forall|j: int|
            0 <= j < new_e.len() && j != k ==> #[trigger] new_e[j] == if j < old_e.len() {
                old_e[j]
            } else {
                None
            }
    } else {
        new_e == old_e
    }
}

/// How the validated functions change when `decl`, with identifier `k`, is
/// added.
pub open spec fn funcs_after(
    decl: SyntaxDecl,
    k: int,
    prefix: Seq<char>,
    old_f: Map<usize, FuncDecl>,
    new_f: Map<usize, FuncDecl>,
) -> bool {
    if decl is Function {
        &&& new_f == old_f.insert(k as usize, new_f[k as usize])
        &&& func_built(decl, prefix, new_f[k as usize])
    } else {
        new_f == old_f
    }
}

impl Module {
    /// Checks declaration `decl`, whose identifier is `id`, and adds its
    /// resolved form to the data types or to the functions. Type references
    /// are resolved against the module's name table.
    fn decl_to_ir(
        &self,
        id: Ident,
        decl: &SyntaxDecl,
        data_types_ir: &mut DataTypeModuleBuilder,
        funcs_ir: &mut HashMap<usize, FuncDecl>,
    ) -> (r: Result<(), ValidationError>)
        requires
            !(*decl is Module),
            *decl is Function ==> !old(funcs_ir)@.contains_key(id.0),
        ensures
            match r {
                Ok(()) => {
                    &&& decl_ok_in(table_names(self.names@), *decl)
                    &&& builder_after(
                        table_names(self.names@),
                        *decl,
                        id.0 as int,
                        old(data_types_ir).data_types@,
                        final(data_types_ir).data_types@,
                    )
                    &&& funcs_after(*decl, id.0 as int, self.binding_prefix@, old(funcs_ir)@, final(funcs_ir)@)
                },
                Err(e) => {
                    &&& !decl_ok_in(table_names(self.names@), *decl)
                    &&& decl_error_in(table_names(self.names@), *decl, e)
                    &&& final(data_types_ir).data_types@ == old(data_types_ir).data_types@
                    &&& final(funcs_ir)@ == old(funcs_ir)@
                },
            },
    {
        let ghost tn = table_names(self.names@);
        match decl {
            SyntaxDecl::Struct { name, members, location } => {
                if members.len() == 0 {
                    return Err(ValidationError::Empty { name: name.clone(), location: *location });
                }
                let mut dtype_members: Vec<StructMemberIR> = Vec::new();
                let mut i: usize = 0;
                while i < members.len()
                    invariant
                        tn == table_names(self.names@),
                        *decl == (SyntaxDecl::Struct { name: *name, members: *members, location: *location }),
                        0 <= i <= members@.len(),
                        dtype_members@.len() == i,
                        forall|j: int| 0 <= j < i ==> !#[trigger] member_fails(tn, members@, j),
                        forall|j: int|
                            0 <= j < i ==> (#[trigger] dtype_members@[j]).name@ == members@[j].name@
                                && dtype_members@[j].type_ == resolve_in(tn, members@[j].type_),
                    decreases members@.len() - i,
                {
                    let mem = &members[i];
                    match find_member_dup(members, i) {
                        Some(j) => {
                            proof {
                                let ns = crate::validation::member_names(members@);
                                assert(ns[j as int] == ns[i as int]);
                                assert(member_fails(tn, members@, i as int));
                                assert(crate::validation::member_locations(members@)[i as int] == mem.location);
                                assert(crate::validation::member_locations(members@)[j as int] == members@[j as int].location);
                            }
                            let e = ValidationError::NameAlreadyExists {
                                name: mem.name.clone(),
                                at_location: mem.location,
                                previous_location: members[j].location,
                            };
                            return Err(e);
                        },
                        None => {},
                    }
                    let type_ = match self.get_ref(&mem.type_) {
                        Ok(t) => t,
                        Err(e) => {
                            proof {
                                assert(member_fails(tn, members@, i as int));
                            }
                            return Err(e);
                        },
                    };
                    dtype_members.push(StructMemberIR { type_, name: mem.name.clone() });
                    i = i + 1;
                }
                data_types_ir.define(id, VariantIR::Struct(StructIR { members: dtype_members }));
                Ok(())
            },
            SyntaxDecl::Enum { name, variants, location } => {
                if variants.len() == 0 {
                    return Err(ValidationError::Empty { name: name.clone(), location: *location });
                }
                let mut dtype_members: Vec<EnumMember> = Vec::new();
                let mut i: usize = 0;
                while i < variants.len()
                    invariant
                        *decl == (SyntaxDecl::Enum { name: *name, variants: *variants, location: *location }),
                        0 <= i <= variants@.len(),
                        dtype_members@.len() == i,
                        forall|j: int| 0 <= j < i ==> !#[trigger] seq_has_dup(variant_names(variants@), j),
                        forall|j: int| 0 <= j < i ==> (#[trigger] dtype_members@[j]).name@ == variants@[j].name@,
                    decreases variants@.len() - i,
                {
                    let var = &variants[i];
                    match find_variant_dup(variants, i) {
                        Some(j) => {
                            let e = ValidationError::NameAlreadyExists {
                                name: var.name.clone(),
                                at_location: var.location,
                                previous_location: variants[j].location,
                            };
                            proof {
                                let ns = variant_names(variants@);
                                let ls = crate::validation::variant_locations(variants@);
                                assert(ns[j as int] == ns[i as int]);
                                assert(ls[i as int] == var.location);
                                assert(ls[j as int] == variants@[j as int].location);
                                assert(seq_has_dup(ns, i as int));
                                assert(crate::validation::dup_error(ns, ls, i as int, e));
                            }
                            return Err(e);
                        },
                        None => {},
                    }
                    dtype_members.push(EnumMember { name: var.name.clone() });
                    i = i + 1;
                }
                data_types_ir.define(id, VariantIR::Enum(EnumIR { members: dtype_members }));
                Ok(())
            },
            SyntaxDecl::Alias { what, .. } => {
                let to = match self.get_ref(what) {
                    Ok(t) => t,
                    Err(e) => {
                        return Err(e);
                    },
                };
                data_types_ir.define(id, VariantIR::Alias(AliasIR { to }));
                Ok(())
            },
            SyntaxDecl::Function { name, args, rets, location } => {
                let ghost all = func_args(args@, rets@);
                let mut fargs: Vec<FuncArg> = Vec::new();
                let mut t: usize = 0;
                while t < args.len()
                    invariant
                        *decl == (SyntaxDecl::Function { name: *name, args: *args, rets: *rets, location: *location }),
                        all == func_args(args@, rets@),
                        0 <= t <= args@.len(),
                        forall|j: int| 0 <= j < t ==> !#[trigger] seq_has_dup(arg_names(all), j),
                        fargs@.len() == t,
                        forall|j: int|
                            0 <= j < t ==> (#[trigger] fargs@[j]).name@ == args@[j].name@
                                && fargs@[j].type_ == args@[j].type_,
                    decreases args@.len() - t,
                {
                    let a = &args[t];
                    proof {
                        assert(all[t as int] == args@[t as int]);
                    }
                    match find_arg_name(args, t, &a.name) {
                        Some(j) => {
                            proof {
                                assert(all[j as int] == args@[j as int]);
                                lemma_arg_dup(args@, rets@, j as int, t as int);
                            }
                            let e = ValidationError::NameAlreadyExists {
                                name: a.name.clone(),
                                at_location: a.location,
                                previous_location: args[j].location,
                            };
                            proof {
                                let ns = arg_names(all);
                                let ls = crate::validation::arg_locations(all);
                                assert(seq_has_dup(ns, t as int));
                                assert(ns[j as int] == ns[t as int]);
                                assert(crate::validation::dup_error(ns, ls, t as int, e));
                                assert(seq_has_dup(arg_names(func_args(args@, rets@)), t as int));
                                assert(decl->Function_args == *args && decl->Function_rets == *rets);
                                assert(!decl_ok_in(table_names(self.names@), *decl));
                            }
                            return Err(e);
                        },
                        None => {
                            proof {
                                lemma_arg_fresh(args@, rets@, t as int);
                            }
                        },
                    }
                    fargs.push(FuncArg { name: a.name.clone(), type_: a.type_ });
                    t = t + 1;
                }
                let mut frets: Vec<FuncArg> = Vec::new();
                let mut t: usize = 0;
                while t < rets.len()
                    invariant
                        *decl == (SyntaxDecl::Function { name: *name, args: *args, rets: *rets, location: *location }),
                        all == func_args(args@, rets@),
                        0 <= t <= rets@.len(),
                        forall|j: int| 0 <= j < args@.len() + t ==> !#[trigger] seq_has_dup(arg_names(all), j),
                        frets@.len() == t,
                        forall|j: int|
                            0 <= j < t ==> (#[trigger] frets@[j]).name@ == rets@[j].name@
                                && frets@[j].type_ == rets@[j].type_,
                    decreases rets@.len() - t,
                {
                    let a = &rets[t];
                    let ghost i = args@.len() + t;
                    proof {
                        assert(all[i] == rets@[t as int]);
                    }
                    match find_arg_name(args, args.len(), &a.name) {
                        Some(j) => {
                            proof {
                                assert(all[j as int] == args@[j as int]);
                                lemma_arg_dup(args@, rets@, j as int, i);
                            }
                            let e = ValidationError::NameAlreadyExists {
                                name: a.name.clone(),
                                at_location: a.location,
                                previous_location: args[j].location,
                            };
                            proof {
                                let ns = arg_names(all);
                                let ls = crate::validation::arg_locations(all);
                                assert(seq_has_dup(ns, i));
                                assert(ns[j as int] == ns[i]);
                                assert(crate::validation::dup_error(ns, ls, i, e));
                                assert(seq_has_dup(arg_names(func_args(args@, rets@)), i));
                                assert(decl->Function_args == *args && decl->Function_rets == *rets);
                                assert(!decl_ok_in(table_names(self.names@), *decl));
                            }
                            return Err(e);
                        },
                        None => {},
                    }
                    match find_arg_name(rets, t, &a.name) {
                        Some(j) => {
                            proof {
                                assert(all[args@.len() + j] == rets@[j as int]);
                                lemma_arg_dup(args@, rets@, args@.len() + j, i);
                            }
                            let e = ValidationError::NameAlreadyExists {
                                name: a.name.clone(),
                                at_location: a.location,
                                previous_location: rets[j].location,
                            };
                            proof {
                                let ns = arg_names(all);
                                let ls = crate::validation::arg_locations(all);
                                assert(seq_has_dup(ns, i));
                                assert(ns[args@.len() + j] == ns[i]);
                                assert(crate::validation::dup_error(ns, ls, i, e));
                                assert(seq_has_dup(arg_names(func_args(args@, rets@)), i));
                                assert(decl->Function_args == *args && decl->Function_rets == *rets);
                                assert(!decl_ok_in(table_names(self.names@), *decl));
                            }
                            return Err(e);
                        },
                        None => {
                            proof {
                                assert forall|j: int| 0 <= j < i implies (#[trigger] all[j]).name@ != a.name@ by {
                                    if j >= args@.len() {
                                        assert(all[j] == rets@[j - args@.len()]);
                                    } else {
                                        assert(all[j] == args@[j]);
                                    }
                                }
                                lemma_arg_fresh(args@, rets@, i);
                            }
                        },
                    }
                    frets.push(FuncArg { name: a.name.clone(), type_: a.type_ });
                    t = t + 1;
                }
                if rets.len() > 1 {
                    return Err(
                        ValidationError::Syntax { expected: "at most one return value", location: *location },
                    );
                }
                let snake = to_snake_case(name.as_str());
                let binding = binding_name(self.binding_prefix.as_str(), snake.as_str());
                let fd = FuncDecl { args: fargs, rets: frets, field_name: name.clone(), binding_name: binding };
                funcs_ir.insert(id.0, fd);
                Ok(())
            },
            SyntaxDecl::Module { .. } => {
                Ok(())
            },
        }
    }
}

} // verus!

verus! {

/// `m` is the module that the valid declarations `d` form, under the module
/// name `module_name` and the binding prefix `prefix`.
pub open spec fn module_built_from(
    d: Seq<SyntaxDecl>,
    module_name: Seq<char>,
    prefix: Seq<char>,
    m: Module,
) -> bool {
    &&& m.module_name@ == module_name
    &&& m.binding_prefix@ == prefix
    &&& names_match(d, m.names@)
    &&& forall|key: usize|
        #[trigger] m.funcs@.contains_key(key) <==> (key < d.len() && d[key as int] is Function)
    &&& forall|key: usize|
        #[trigger] m.funcs@.contains_key(key) ==> func_built(d[key as int], prefix, m.funcs@[key])
    &&& forall|key: usize|
        #[trigger] m.data_types@.contains_key(key) <==> (key < d.len() && is_data_decl(d[key as int]))
    &&& forall|key: usize|
        #[trigger] m.data_types@.contains_key(key) ==> data_type_built(d, key as int, m.data_types@[key])
    &&& ordering_ok(decl_shapes(d), m.data_types@, m.data_type_ordering@)
}

/// The resolved data types collected from the first `k` declarations.
pub open spec fn entries_collected(d: Seq<SyntaxDecl>, k: int, entries: Seq<Option<VariantIR>>) -> bool {
    &&& entries.len() <= k
    &&& forall|j: int| 0 <= j < entries.len() ==> (#[trigger] entries[j] is Some <==> is_data_decl(d[j]))
    &&& forall|j: int|
        0 <= j < k && #[trigger] is_data_decl(d[j]) ==> j < entries.len() && entries[j] is Some
            && entry_matches(d, j, entries[j]->Some_0)
}

/// The functions collected from the first `k` declarations.
pub open spec fn funcs_collected(d: Seq<SyntaxDecl>, k: int, prefix: Seq<char>, funcs: Map<usize, FuncDecl>) -> bool {
    &&& forall|key: usize| #[trigger] funcs.contains_key(key) <==> (key < k && d[key as int] is Function)
    &&& forall|key: usize| #[trigger] funcs.contains_key(key) ==> func_built(d[key as int], prefix, funcs[key])
}

proof fn lemma_shapes_collected(d: Seq<SyntaxDecl>, entries: Seq<Option<VariantIR>>)
    requires
        entries_collected(d, d.len() as int, entries),
    ensures
        entries_shapes(entries, d.len()) == decl_shapes(d),
{
    let s1 = entries_shapes(entries, d.len());
    let s2 = decl_shapes(d);
    assert forall|k: int| 0 <= k < d.len() implies s1[k] == s2[k] by {
        if is_data_decl(d[k]) {
            let v = entries[k]->Some_0;
            if let SyntaxDecl::Struct { members, .. } = d[k] {
                if let VariantIR::Struct(si) = v {
                    assert(member_types(si.members@) =~= decl_field_types(d, members@));
                }
            }
        } else {
            if k < entries.len() {
                assert(entries[k] is None);
            }
        }
    }
    assert(s1 =~= s2);
}

proof fn lemma_built(d: Seq<SyntaxDecl>, k: int, v: VariantIR, dt: DataType)
    requires
        0 <= k < d.len(),
        entry_matches(d, k, v),
        laid_out(decl_shapes(d), k, v, dt),
    ensures
        data_type_built(d, k, dt),
{
    let s = decl_shapes(d);
    assert forall|n: nat| #[trigger] crate::layout::shape_bounded(s, k, n) implies crate::validation::data_type_built_at(
        d,
        k,
        dt,
        n,
    ) by {
        assert(crate::layout::laid_out_at(s, k, v, dt, n));
        if let SyntaxDecl::Struct { members, .. } = d[k] {
            if let VariantIR::Struct(si) = v {
                assert(member_types(si.members@) =~= decl_field_types(d, members@));
            }
        }
    }
}

impl Module {
    /// Checks a list of declarations and builds the module they form: every
    /// name is declared once, every struct and enum has members with distinct
    /// names, every type reference names a declaration, every function has
    /// distinct argument names and at most one return value, and no data type
    /// contains itself. Data types get their layouts, functions their binding
    /// names. Declaration `k` gets the identifier `Ident(k)`.
    pub fn from_declarations(
        decls: &[SyntaxDecl],
        module_name: String,
        binding_prefix: String,
    ) -> (r: Result<Module, ValidationError>)
        requires
            layout_computable(decls@),
        ensures
            match r {
                Ok(m) => declarations_valid(decls@) && module_built_from(
                    decls@,
                    module_name@,
                    binding_prefix@,
                    m,
                ) && m.well_formed(),
                Err(e) => !declarations_valid(decls@) && rejection(decls@, e),
            },
    {
        let ghost d = decls@;
        let mut mod_ = Self::new(module_name, binding_prefix);
        let mut k: usize = 0;
        while k < decls.len()
            invariant
                d == decls@,
                0 <= k <= d.len(),
                mod_.names@.len() == k,
                forall|j: int|
                    0 <= j < k ==> (#[trigger] mod_.names@[j]).name@ == decl_name(d[j])
                        && mod_.names@[j].location == decl_location(d[j]),
                forall|j: int| 0 <= j < k ==> !#[trigger] name_clash(d, j),
                mod_.data_types@ == Map::<usize, DataType>::empty(),
                mod_.funcs@ == Map::<usize, FuncDecl>::empty(),
                mod_.data_type_ordering@.len() == 0,
                mod_.module_name == module_name,
                mod_.binding_prefix == binding_prefix,
            decreases d.len() - k,
        {
            let decl = &decls[k];
            if let SyntaxDecl::Module { .. } = decl {
                let e = ValidationError::Syntax {
                    expected: "type or function declaration",
                    location: *decl.location(),
                };
                proof {
                    assert(first_name_clash(d, k as int));
                    assert(!names_ok(d));
                }
                return Err(e);
            }
            let ghost old_names = mod_.names@;
            match mod_.introduce_name(decl.name(), decl.location()) {
                Ok(_) => {
                    proof {
                        let ns = decl_names(d);
                        let tn = table_names(old_names);
                        assert forall|j: int| 0 <= j < k implies ns[j] != ns[k as int] by {
                            assert(old_names[j].name@ == decl_name(d[j]));
                            assert(tn[j] == old_names[j].name@);
                        }
                        assert(!name_clash(d, k as int));
                    }
                },
                Err(e) => {
                    proof {
                        let j = choose|j: int|
                            first_name_index(mod_.names@, decl_name(d[k as int]), j) && (
                            e matches ValidationError::NameAlreadyExists {
                                name: n,
                                at_location,
                                previous_location,
                            } && n@ == decl_name(d[k as int]) && at_location == decl_location(
                                d[k as int],
                            ) && previous_location == mod_.names@[j].location);
                        let ns = decl_names(d);
                        assert(ns[j] == ns[k as int]);
                        assert(crate::validation::decl_locations(d)[j] == decl_location(d[j]));
                        assert(crate::validation::decl_locations(d)[k as int] == decl_location(d[k as int]));
                        assert(first_name_clash(d, k as int));
                        assert(!names_ok(d));
                    }
                    return Err(e);
                },
            }
            k = k + 1;
        }
        proof {
            assert(names_ok(d));
        }
        let mut data_types_ir = DataTypeModuleBuilder::new();
        let mut funcs_ir: HashMap<usize, FuncDecl> = HashMap::new();
        let mut k: usize = 0;
        while k < decls.len()
            invariant
                d == decls@,
                0 <= k <= d.len(),
                names_ok(d),
                names_match(d, mod_.names@),
                layout_computable(d),
                forall|j: int| 0 <= j < k ==> #[trigger] decl_ok(d, j),
                entries_collected(d, k as int, data_types_ir.data_types@),
                funcs_collected(d, k as int, mod_.binding_prefix@, funcs_ir@),
                mod_.module_name == module_name,
                mod_.binding_prefix == binding_prefix,
            decreases d.len() - k,
        {
            let ghost old_entries = data_types_ir.data_types@;
            let ghost old_funcs = funcs_ir@;
            proof {
                lemma_table_names(d, mod_.names@);
                assert(!name_clash(d, k as int));
                assert(!funcs_ir@.contains_key(k));
            }
            match mod_.decl_to_ir(Ident(k), &decls[k], &mut data_types_ir, &mut funcs_ir) {
                Ok(()) => {
                    proof {
                        let ne = data_types_ir.data_types@;
                        assert forall|j: int| 0 <= j < ne.len() implies (#[trigger] ne[j] is Some <==> is_data_decl(d[j])) by {
                            if j != k {
                                if j < old_entries.len() {
                                    assert(ne[j] == old_entries[j]);
                                } else if is_data_decl(d[k as int]) {
                                    assert(ne[j] is None);
                                }
                            }
                        }
                        assert forall|j: int| 0 <= j < k + 1 && #[trigger] is_data_decl(d[j]) implies j < ne.len()
                            && ne[j] is Some && entry_matches(d, j, ne[j]->Some_0) by {
                            if j != k && is_data_decl(d[k as int]) {
                                assert(ne[j] == old_entries[j]);
                            }
                        }
                        assert forall|key: usize| #[trigger] funcs_ir@.contains_key(key) <==> (key < k + 1
                            && d[key as int] is Function) by {
                            if key != k {
                                assert(funcs_ir@.contains_key(key) == old_funcs.contains_key(key));
                            }
                        }
                        assert forall|key: usize| #[trigger] funcs_ir@.contains_key(key) implies func_built(
                            d[key as int],
                            mod_.binding_prefix@,
                            funcs_ir@[key],
                        ) by {
                            if key != k {
                                assert(old_funcs.contains_key(key));
                            }
                        }
                    }
                },
                Err(e) => {
                    proof {
                        assert(first_bad_decl(d, k as int));
                        assert(!decls_ok(d));
                    }
                    return Err(e);
                },
            }
            k = k + 1;
        }
        proof {
            assert(decls_ok(d));
            lemma_shapes_collected(d, data_types_ir.data_types@);
        }
        let ghost entries = data_types_ir.data_types@;
        let ghost s = decl_shapes(d);
        let (data_types, ordering) = match data_types_ir.validate_datatypes(&mod_.names) {
            Ok(x) => x,
            Err(e) => {
                proof {
                    let k = choose|k: int|
                        #[trigger] crate::layout::first_infinite(s, k) && (
                        e matches ValidationError::Infinite { name, location } && name@
                            == mod_.names@[k].name@ && location == mod_.names@[k].location);
                    assert(crate::layout::first_infinite(s, k));
                    assert(!crate::layout::all_finite(s));
                }
                return Err(e);
            },
        };
        proof {
            assert forall|key: usize| #[trigger] data_types@.contains_key(key) <==> (key < d.len()
                && is_data_decl(d[key as int])) by {
                if key < d.len() {
                    assert(s[key as int] == decl_shape(d, key as int));
                }
            }
            assert forall|key: usize| #[trigger] data_types@.contains_key(key) implies data_type_built(
                d,
                key as int,
                data_types@[key],
            ) by {
                assert(s[key as int] == decl_shape(d, key as int));
                assert(is_data_decl(d[key as int]));
                lemma_built(d, key as int, entries[key as int]->Some_0, data_types@[key]);
            }
        }
        mod_.data_types = data_types;
        mod_.data_type_ordering = ordering;
        mod_.funcs = funcs_ir;
        proof {
            assert(module_built_from(d, mod_.module_name@, mod_.binding_prefix@, mod_));
            crate::laws::law_module_well_formed(d, mod_);
        }
        Ok(mod_)
    }
}

} // verus!

verus! {

/// The identifiers below `n` of the functions of `m`, in increasing order.
pub open spec fn func_ids_below(m: Module, n: nat) -> Seq<usize>
    decreases n,
{
    if n == 0 {
        Seq::empty()
    } else {
        let prev = func_ids_below(m, (n - 1) as nat);
        if m.funcs@.contains_key((n - 1) as usize) {
            prev.push((n - 1) as usize)
        } else {
            prev
        }
    }
}

/// The identifiers of the functions of `m`, in increasing order.
pub open spec fn func_ids(m: Module) -> Seq<usize> {
    func_ids_below(m, m.names@.len())
}

proof fn lemma_func_ids_below(m: Module, n: nat)
    requires
        n <= usize::MAX + 1,
    ensures
        forall|i: int, j: int|
            0 <= i < j < func_ids_below(m, n).len() ==> func_ids_below(m, n)[i] < func_ids_below(m, n)[j],
        forall|i: int|
            0 <= i < func_ids_below(m, n).len() ==> m.funcs@.contains_key(#[trigger] func_ids_below(m, n)[i])
                && func_ids_below(m, n)[i] < n,
        forall|key: usize|
            key < n && #[trigger] m.funcs@.contains_key(key) ==> exists|i: int|
                0 <= i < func_ids_below(m, n).len() && func_ids_below(m, n)[i] == key,
    decreases n,
{
    if n > 0 {
        let p = (n - 1) as nat;
        lemma_func_ids_below(m, p);
        let prev = func_ids_below(m, p);
        let cur = func_ids_below(m, n);
        assert forall|key: usize| key < n && #[trigger] m.funcs@.contains_key(key) implies exists|i: int|
            0 <= i < cur.len() && cur[i] == key by {
            if key < p {
                let i = choose|i: int| 0 <= i < prev.len() && prev[i] == key;
                assert(cur[i] == prev[i]);
            } else {
                assert(cur[prev.len() as int] == key);
            }
        }
        assert forall|i: int| 0 <= i < cur.len() implies m.funcs@.contains_key(#[trigger] cur[i]) && cur[i] < n by {
            if i < prev.len() {
                assert(cur[i] == prev[i]);
            }
        }
    }
}

/// The functions of `m` that have an entry in its name table are listed by
/// `func_ids(m)`, each once, in increasing order of identifier, and nothing
/// else is.
pub proof fn law_func_ids(m: Module)
    requires
        m.names@.len() <= usize::MAX,
    ensures
        forall|i: int, j: int| 0 <= i < j < func_ids(m).len() ==> func_ids(m)[i] < func_ids(m)[j],
        forall|i: int|
            0 <= i < func_ids(m).len() ==> m.funcs@.contains_key(#[trigger] func_ids(m)[i]) && func_ids(m)[i]
                < m.names@.len(),
        forall|key: usize|
            key < m.names@.len() && #[trigger] m.funcs@.contains_key(key) ==> exists|i: int|
                0 <= i < func_ids(m).len() && func_ids(m)[i] == key,
{
    let n = m.names@.len();
    lemma_func_ids_below(m, n);
    assert(func_ids(m) == func_ids_below(m, n));
    assert forall|key: usize| key < n && #[trigger] m.funcs@.contains_key(key) implies exists|i: int|
        0 <= i < func_ids(m).len() && func_ids(m)[i] == key by {
        assert(key < n && m.funcs@.contains_key(key));
    }
}

impl Module {
    /// Every entity of the module has an entry in the name table, and the
    /// ordering of the data types lists data types.
    pub open spec fn well_formed(&self) -> bool {
        &&& forall|key: usize| #[trigger] self.data_types@.contains_key(key) ==> key < self.names@.len()
        &&& forall|key: usize| #[trigger] self.funcs@.contains_key(key) ==> key < self.names@.len()
        &&& forall|i: int|
            0 <= i < self.data_type_ordering@.len() ==> self.data_types@.contains_key(
                #[trigger] self.data_type_ordering@[i].0,
            )
    }

    /// Each entry of the ordering is a data type with an entry in the name
    /// table.
    pub open spec fn ordering_listed(&self) -> bool {
        forall|i: int|
            0 <= i < self.data_type_ordering@.len() ==> self.data_types@.contains_key(
                #[trigger] self.data_type_ordering@[i].0,
            ) && self.data_type_ordering@[i].0 < self.names@.len()
    }

    /// Retrieve information about a data type given its identifier
    pub fn get_datatype(&self, id: Ident) -> (r: Option<Named<'_, DataType>>)
        requires
            id.0 < self.names@.len(),
        ensures
            r is Some <==> self.data_types@.contains_key(id.0),
            r matches Some(n) ==> n.id == id && *n.name == self.names@[id.0 as int] && *n.entity
                == self.data_types@[id.0],
    {
        let name = &self.names[id.0];
        match self.data_types.get(&id.0) {
            Some(data_type) => Some(Named { id, name, entity: data_type }),
            None => None,
        }
    }

    /// Retrieve information about a function declaration  given its identifier
    pub fn get_func_decl(&self, id: Ident) -> (r: Option<Named<'_, FuncDecl>>)
        requires
            id.0 < self.names@.len(),
        ensures
            r is Some <==> self.funcs@.contains_key(id.0),
            r matches Some(n) ==> n.id == id && *n.name == self.names@[id.0 as int] && *n.entity
                == self.funcs@[id.0],
    {
        let name = &self.names[id.0];
        match self.funcs.get(&id.0) {
            Some(func_decl) => Some(Named { id, name, entity: func_decl }),
            None => None,
        }
    }

    /// The data types, in the order of `data_type_ordering`: each after the
    /// data types it refers to.
    pub fn datatypes(&self) -> (r: Vec<Named<'_, DataType>>)
        requires
            self.ordering_listed(),
        ensures
            r@.len() == self.data_type_ordering@.len(),
            forall|i: int|
                0 <= i < r@.len() ==> (#[trigger] r@[i]).id == self.data_type_ordering@[i] && *r@[i].name
                    == self.names@[r@[i].id.0 as int] && *r@[i].entity == self.data_types@[r@[i].id.0],
    {
        let mut r: Vec<Named<'_, DataType>> = Vec::new();
        let mut i: usize = 0;
        while i < self.data_type_ordering.len()
            invariant
                self.ordering_listed(),
                0 <= i <= self.data_type_ordering@.len(),
                r@.len() == i,
                forall|t: int|
                    0 <= t < i ==> (#[trigger] r@[t]).id == self.data_type_ordering@[t] && *r@[t].name
                        == self.names@[r@[t].id.0 as int] && *r@[t].entity == self.data_types@[r@[t].id.0],
            decreases self.data_type_ordering@.len() - i,
        {
            let id = self.data_type_ordering[i];
            proof {
                assert(self.data_types@.contains_key(self.data_type_ordering@[i as int].0));
            }
            let named = self.get_datatype(id).unwrap();
            r.push(named);
            i = i + 1;
        }
        r
    }

    /// The function declarations, in increasing order of identifier.
    pub fn func_decls(&self) -> (r: Vec<Named<'_, FuncDecl>>)
        ensures
            forall|key: usize|
                key < self.names@.len() && self.funcs@.contains_key(key) <==> exists|i: int|
                    0 <= i < r@.len() && (#[trigger] r@[i]).id.0 == key,
            forall|i: int, j: int| 0 <= i < j < r@.len() ==> (#[trigger] r@[i]).id.0 < (#[trigger] r@[j]).id.0,
            r@.len() == func_ids(*self).len(),
            forall|i: int|
                0 <= i < r@.len() ==> (#[trigger] r@[i]).id.0 == func_ids(*self)[i] && *r@[i].name
                    == self.names@[r@[i].id.0 as int] && *r@[i].entity == self.funcs@[r@[i].id.0],
    {
        let mut r: Vec<Named<'_, FuncDecl>> = Vec::new();
        let mut k: usize = 0;
        while k < self.names.len()
            invariant
                0 <= k <= self.names@.len(),
                r@.len() == func_ids_below(*self, k as nat).len(),
                forall|i: int|
                    0 <= i < r@.len() ==> (#[trigger] r@[i]).id.0 == func_ids_below(*self, k as nat)[i]
                        && *r@[i].name == self.names@[r@[i].id.0 as int] && *r@[i].entity
                        == self.funcs@[r@[i].id.0],
            decreases self.names@.len() - k,
        {
            match self.get_func_decl(Ident(k)) {
                Some(named) => {
                    r.push(named);
                },
                None => {},
            }
            k = k + 1;
        }
        proof {
            law_func_ids(*self);
            let ids = func_ids(*self);
            assert forall|key: usize|
                key < self.names@.len() && self.funcs@.contains_key(key) <== exists|i: int|
                    0 <= i < r@.len() && (#[trigger] r@[i]).id.0 == key by {
                if exists|i: int| 0 <= i < r@.len() && (#[trigger] r@[i]).id.0 == key {
                    let i = choose|i: int| 0 <= i < r@.len() && (#[trigger] r@[i]).id.0 == key;
                    assert(self.funcs@.contains_key(ids[i]));
                }
            }
            assert forall|key: usize|
                key < self.names@.len() && self.funcs@.contains_key(key) implies exists|i: int|
                    0 <= i < r@.len() && (#[trigger] r@[i]).id.0 == key by {
                assert(self.funcs@.contains_key(key));
                let i = choose|i: int| 0 <= i < ids.len() && ids[i] == key;
                assert(r@[i].id.0 == key);
            }
            assert forall|i: int, j: int| 0 <= i < j < r@.len() implies (#[trigger] r@[i]).id.0 < (
            #[trigger] r@[j]).id.0 by {
                assert(ids[i] < ids[j]);
            }
        }
        r
    }

    /// For each field name of the module's functions, that name and the name
    /// it is bound under: one pair per field name. Where functions share a
    /// field name, the one with the largest identifier gives the binding.
    /// Pairs come in the order in which their field names first occur.
    pub fn func_bindings(&self) -> (r: Vec<(String, String)>)
        ensures
            bindings_upto(*self, r@, func_ids(*self).len() as int),
            forall|key: usize|
                key < self.names@.len() && #[trigger] self.funcs@.contains_key(key) ==> exists|i: int|
                    0 <= i < r@.len() && r@[i].0@ == self.funcs@[key].field_name@,
    {
        let decls = self.func_decls();
        let names_len = self.names.len();
        let ghost m = *self;
        let mut r: Vec<(String, String)> = Vec::new();
        let mut i: usize = 0;
        while i < decls.len()
            invariant
                m == *self,
                0 <= i <= decls@.len(),
                decls@.len() == func_ids(m).len(),
                forall|t: int|
                    0 <= t < decls@.len() ==> (#[trigger] decls@[t]).id.0 == func_ids(m)[t]
                        && *decls@[t].entity == m.funcs@[decls@[t].id.0],
                bindings_upto(m, r@, i as int),
            decreases decls@.len() - i,
        {
            let d = &decls[i];
            let ghost old_r = r@;
            proof {
                assert(decls@[i as int].id.0 == func_ids(m)[i as int]);
                assert(d.entity.field_name@ == func_field(m, i as int));
                assert(d.entity.binding_name@ == func_binding(m, i as int));
            }
            match find_field(&r, &d.entity.field_name) {
                Some(j) => {
                    r.set(j, (d.entity.field_name.clone(), d.entity.binding_name.clone()));
                    proof {
                        lemma_bindings_replace(m, old_r, r@, i as int, j as int);
                    }
                },
                None => {
                    r.push((d.entity.field_name.clone(), d.entity.binding_name.clone()));
                    proof {
                        lemma_bindings_push(m, old_r, r@, i as int);
                    }
                },
            }
            i = i + 1;
        }
        proof {
            let n = self.names@.len();
            assert(n == names_len);
            law_func_ids(m);
            assert forall|key: usize| key < n && #[trigger] self.funcs@.contains_key(key) implies exists|i: int|
                0 <= i < r@.len() && r@[i].0@ == self.funcs@[key].field_name@ by {
                let k = choose|k: int| 0 <= k < func_ids(m).len() && func_ids(m)[k] == key;
                assert(func_field(m, k) == self.funcs@[key].field_name@);
            }
        }
        r
    }
}

/// The field name of the `k`-th function of `m`, in identifier order.
pub open spec fn func_field(m: Module, k: int) -> Seq<char> {
    m.funcs@[func_ids(m)[k]].field_name@
}

/// The binding name of the `k`-th function of `m`, in identifier order.
pub open spec fn func_binding(m: Module, k: int) -> Seq<char> {
    m.funcs@[func_ids(m)[k]].binding_name@
}

/// No function after the `k`-th and before the `n`-th shares its field name.
pub open spec fn last_with_field(m: Module, k: int, n: int) -> bool {
    forall|k2: int| k < k2 < n ==> func_field(m, k2) != func_field(m, k)
}

/// `r` pairs each field name of the first `n` functions of `m` with the
/// binding of the last of them that carries it, once per field name.
pub open spec fn bindings_upto(m: Module, r: Seq<(String, String)>, n: int) -> bool {
    &&& bindings_distinct(r)
    &&& bindings_cover(m, r, n)
    &&& bindings_last(m, r, n)
}

/// No field name occurs twice in `r`.
pub open spec fn bindings_distinct(r: Seq<(String, String)>) -> bool {
    forall|i: int, j: int| 0 <= i < j < r.len() ==> (#[trigger] r[i]).0@ != (#[trigger] r[j]).0@
}

/// Each field name of the first `n` functions of `m` has a pair in `r`.
pub open spec fn bindings_cover(m: Module, r: Seq<(String, String)>, n: int) -> bool {
    forall|k: int| 0 <= k < n ==> exists|i: int| 0 <= i < r.len() && r[i].0@ == #[trigger] func_field(m, k)
}

/// Each pair of `r` holds a field name among the first `n` functions of `m`
/// and the binding of the last of them that carries it.
pub open spec fn bindings_last(m: Module, r: Seq<(String, String)>, n: int) -> bool {
    forall|i: int|
        0 <= i < r.len() ==> exists|k: int|
            0 <= k < n && func_field(m, k) == (#[trigger] r[i]).0@ && r[i].1@ == func_binding(m, k)
                && last_with_field(m, k, n)
}

/// The position in `r` of the pair for field name `f`.
fn find_field(r: &Vec<(String, String)>, f: &String) -> (res: Option<usize>)
    ensures
        match res {
            Some(j) => j < r@.len() && r@[j as int].0@ == f@,
            None => forall|j: int| 0 <= j < r@.len() ==> (#[trigger] r@[j]).0@ != f@,
        },
{
    let mut j: usize = 0;
    while j < r.len()
        invariant
            0 <= j <= r@.len(),
            forall|t: int| 0 <= t < j ==> (#[trigger] r@[t]).0@ != f@,
        decreases r@.len() - j,
    {
        if r[j].0 == *f {
            return Some(j);
        }
        j = j + 1;
    }
    None
}

proof fn lemma_bindings_replace(m: Module, r: Seq<(String, String)>, r2: Seq<(String, String)>, n: int, j: int)
    requires
        0 <= n,
        bindings_upto(m, r, n),
        0 <= j < r.len(),
        r[j].0@ == func_field(m, n),
        r2 == r.update(j, r2[j]),
        r2[j].0@ == func_field(m, n),
        r2[j].1@ == func_binding(m, n),
    ensures
        bindings_upto(m, r2, n + 1),
{
    lemma_replace_distinct(m, r, r2, n, j);
    lemma_replace_cover(m, r, r2, n, j);
    lemma_replace_last(m, r, r2, n, j);
}

proof fn lemma_replace_distinct(m: Module, r: Seq<(String, String)>, r2: Seq<(String, String)>, n: int, j: int)
    requires
        bindings_distinct(r),
        0 <= j < r.len(),
        r2 == r.update(j, r2[j]),
        r2[j].0@ == r[j].0@,
    ensures
        bindings_distinct(r2),
{
    assert forall|a: int, b: int| 0 <= a < b < r2.len() implies (#[trigger] r2[a]).0@ != (#[trigger] r2[b]).0@ by {
        assert(r[a].0@ != r[b].0@);
    }
}

proof fn lemma_replace_cover(m: Module, r: Seq<(String, String)>, r2: Seq<(String, String)>, n: int, j: int)
    requires
        bindings_cover(m, r, n),
        0 <= j < r.len(),
        r2 == r.update(j, r2[j]),
        r2[j].0@ == r[j].0@,
        r2[j].0@ == func_field(m, n),
    ensures
        bindings_cover(m, r2, n + 1),
{
    assert forall|k: int| 0 <= k < n + 1 implies exists|i: int|
        0 <= i < r2.len() && r2[i].0@ == #[trigger] func_field(m, k) by {
        if k == n {
            assert(r2[j].0@ == func_field(m, k));
        } else {
            let i = choose|i: int| 0 <= i < r.len() && r[i].0@ == func_field(m, k);
            if i == j {
                assert(r2[j].0@ == func_field(m, k));
            } else {
                assert(r2[i] == r[i]);
            }
        }
    }
}

proof fn lemma_replace_last(m: Module, r: Seq<(String, String)>, r2: Seq<(String, String)>, n: int, j: int)
    requires
        0 <= n,
        bindings_distinct(r),
        bindings_last(m, r, n),
        0 <= j < r.len(),
        r[j].0@ == func_field(m, n),
        r2 == r.update(j, r2[j]),
        r2[j].0@ == func_field(m, n),
        r2[j].1@ == func_binding(m, n),
    ensures
        bindings_last(m, r2, n + 1),
{
    assert forall|i: int| 0 <= i < r2.len() implies exists|k: int|
        0 <= k < n + 1 && func_field(m, k) == (#[trigger] r2[i]).0@ && r2[i].1@ == func_binding(m, k)
            && last_with_field(m, k, n + 1) by {
        if i == j {
            assert(last_with_field(m, n, n + 1));
        } else {
            assert(r2[i] == r[i]);
            let k = choose|k: int|
                0 <= k < n && func_field(m, k) == r[i].0@ && r[i].1@ == func_binding(m, k)
                    && last_with_field(m, k, n);
            if i < j {
                assert(r[i].0@ != r[j].0@);
            } else {
                assert(r[j].0@ != r[i].0@);
            }
            assert(last_with_field(m, k, n + 1));
        }
    }
}

proof fn lemma_bindings_push(m: Module, r: Seq<(String, String)>, r2: Seq<(String, String)>, n: int)
    requires
        0 <= n,
        bindings_upto(m, r, n),
        forall|j: int| 0 <= j < r.len() ==> (#[trigger] r[j]).0@ != func_field(m, n),
        r2 == r.push(r2[r.len() as int]),
        r2[r.len() as int].0@ == func_field(m, n),
        r2[r.len() as int].1@ == func_binding(m, n),
    ensures
        bindings_upto(m, r2, n + 1),
{
    let j = r.len() as int;
    assert forall|a: int, b: int| 0 <= a < b < r2.len() implies (#[trigger] r2[a]).0@ != (#[trigger] r2[b]).0@ by {
        assert(r2[a] == r[a]);
        if b < j {
            assert(r2[b] == r[b]);
        }
    }
    assert forall|k: int| 0 <= k < n + 1 implies exists|i: int|
        0 <= i < r2.len() && r2[i].0@ == #[trigger] func_field(m, k) by {
        if k == n {
            assert(r2[j].0@ == func_field(m, k));
        } else {
            let i = choose|i: int| 0 <= i < r.len() && r[i].0@ == func_field(m, k);
            assert(r2[i] == r[i]);
        }
    }
    assert forall|i: int| 0 <= i < r2.len() implies exists|k: int|
        0 <= k < n + 1 && func_field(m, k) == (#[trigger] r2[i]).0@ && r2[i].1@ == func_binding(m, k)
            && last_with_field(m, k, n + 1) by {
        if i == j {
            assert(last_with_field(m, n, n + 1));
        } else {
            assert(r2[i] == r[i]);
            let k = choose|k: int|
                0 <= k < n && func_field(m, k) == r[i].0@ && r[i].1@ == func_binding(m, k)
                    && last_with_field(m, k, n);
            assert(r[i].0@ != func_field(m, n));
            assert(last_with_field(m, k, n + 1));
        }
    }
}

} // verus!
