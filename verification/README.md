# lucet-idl (verified module validation)

Checks the declarations of an interface description (structs, enums, type
aliases and functions) and builds a `Module` from them: every name is declared
once, every member and argument name is unique within its declaration, every
type reference names a declaration, no data type contains itself, and every
data type gets a C-style memory layout. Functions get the name they are bound
under: the module's binding prefix, an underscore, and the function's name in
snake case.

The library is written in Verus. Every function in `src/` carries a contract
that Verus proves, with one exception: `casing::to_snake_case`, the call into
`heck`, whose contract (its result is `snake_case` of its argument, a function
of the characters alone) is trusted, not proved.

- `src/types.rs`, `src/syntax.rs`, `src/error.rs`: the data of the library.
- `src/validation.rs`: what it means for declarations to form a module, and
  the error each faulty list of declarations is rejected with.
- `src/layout.rs`: sizes, alignments and member offsets, and the builder that
  checks for infinite data types and lays them out in dependency order.
- `src/module.rs`: `Module::from_declarations` and the lookups on a module.
- `src/casing.rs`: binding names, with snake casing done by the `heck` crate.
- `src/laws.rs`: properties of every module, proved once for all inputs
  (struct layouts, cycle rejection, dependency ordering, distinct names).
- `tests/module.rs`: tests, with a small reader for the declaration syntax.
