use lucet_idl::error::ValidationError;
use lucet_idl::module::Module;
use lucet_idl::syntax::{
    EnumVariantSyntax, FuncArgSyntax, StructMemberSyntax, SyntaxDecl, SyntaxRef,
};
use lucet_idl::types::{
    AbiType, AtomType, DataType, DataTypeRef, DataTypeVariant, FuncArg, FuncDecl, Ident, Location,
    Name, StructDataType, StructMember,
};
use std::collections::HashMap;

// A small reader for the declaration syntax, enough to write the cases below
// as text. Lines count from 1 and columns from 0; a declaration is located at
// its keyword, a member, variant or argument at its name, and a type
// reference at the type's name.

#[derive(Debug, Clone, PartialEq)]
enum Tok {
    Word(String),
    Punct(&'static str),
}

fn lex(src: &str) -> Vec<(Tok, Location)> {
    let chars: Vec<char> = src.chars().collect();
    let mut out = Vec::new();
    let (mut line, mut col) = (1usize, 0usize);
    let mut i = 0;
    while i < chars.len() {
        let c = chars[i];
        let loc = Location { line, column: col };
        if c == '\n' {
            line += 1;
            col = 0;
            i += 1;
        } else if c.is_whitespace() {
            col += 1;
            i += 1;
        } else if c.is_alphanumeric() || c == '_' {
            let mut w = String::new();
            while i < chars.len() && (chars[i].is_alphanumeric() || chars[i] == '_') {
                w.push(chars[i]);
                i += 1;
                col += 1;
            }
            out.push((Tok::Word(w), loc));
        } else if c == '-' && i + 1 < chars.len() && chars[i + 1] == '>' {
            out.push((Tok::Punct("->"), loc));
            i += 2;
            col += 2;
        } else {
            let p = match c {
                '{' => "{",
                '}' => "}",
                '(' => "(",
                ')' => ")",
                ':' => ":",
                ';' => ";",
                ',' => ",",
                '=' => "=",
                _ => panic!("unexpected character {:?}", c),
            };
            out.push((Tok::Punct(p), loc));
            i += 1;
            col += 1;
        }
    }
    out
}

struct Reader {
    toks: Vec<(Tok, Location)>,
    pos: usize,
}

impl Reader {
    fn peek(&self) -> Option<&Tok> {
        self.toks.get(self.pos).map(|t| &t.0)
    }

    fn is_punct(&self, p: &str) -> bool {
        matches!(self.peek(), Some(Tok::Punct(q)) if *q == p)
    }

    fn punct(&mut self, p: &str) {
        assert!(self.is_punct(p), "expected {:?} at token {}", p, self.pos);
        self.pos += 1;
    }

    fn word(&mut self) -> (String, Location) {
        match self.toks.get(self.pos).cloned() {
            Some((Tok::Word(w), loc)) => {
                self.pos += 1;
                (w, loc)
            }
            other => panic!("expected a word, found {:?}", other),
        }
    }

    fn type_ref(&mut self) -> SyntaxRef {
        let (w, location) = self.word();
        let atom = match w.as_str() {
            "bool" => Some(AtomType::Bool),
            "u8" => Some(AtomType::U8),
            "u16" => Some(AtomType::U16),
            "u32" => Some(AtomType::U32),
            "u64" => Some(AtomType::U64),
            "i8" => Some(AtomType::I8),
            "i16" => Some(AtomType::I16),
            "i32" => Some(AtomType::I32),
            "i64" => Some(AtomType::I64),
            "f32" => Some(AtomType::F32),
            "f64" => Some(AtomType::F64),
            _ => None,
        };
        match atom {
            Some(atom) => SyntaxRef::Atom { atom, location },
            None => SyntaxRef::Name { name: w, location },
        }
    }

    fn abi_type(&mut self) -> AbiType {
        let (w, _) = self.word();
        match w.as_str() {
            "i32" => AbiType::I32,
            "i64" => AbiType::I64,
            "f32" => AbiType::F32,
            "f64" => AbiType::F64,
            _ => panic!("not an ABI type: {}", w),
        }
    }

    fn args(&mut self, end: &str) -> Vec<FuncArgSyntax> {
        let mut args = Vec::new();
        while !self.is_punct(end) {
            let (name, location) = self.word();
            self.punct(":");
            let type_ = self.abi_type();
            args.push(FuncArgSyntax { name, type_, location });
            if self.is_punct(",") {
                self.punct(",");
            }
        }
        args
    }

    fn decl(&mut self) -> SyntaxDecl {
        let (kw, location) = self.word();
        let (name, _) = self.word();
        match kw.as_str() {
            "struct" => {
                self.punct("{");
                let mut members = Vec::new();
                while !self.is_punct("}") {
                    let (mname, mloc) = self.word();
                    self.punct(":");
                    let type_ = self.type_ref();
                    members.push(StructMemberSyntax { name: mname, type_, location: mloc });
                    if self.is_punct(",") {
                        self.punct(",");
                    }
                }
                self.punct("}");
                SyntaxDecl::Struct { name, members, location }
            }
            "enum" => {
                self.punct("{");
                let mut variants = Vec::new();
                while !self.is_punct("}") {
                    let (vname, vloc) = self.word();
                    variants.push(EnumVariantSyntax { name: vname, location: vloc });
                    if self.is_punct(",") {
                        self.punct(",");
                    }
                }
                self.punct("}");
                SyntaxDecl::Enum { name, variants, location }
            }
            "type" => {
                self.punct("=");
                let what = self.type_ref();
                self.punct(";");
                SyntaxDecl::Alias { name, what, location }
            }
            "fn" => {
                self.punct("(");
                let args = self.args(")");
                self.punct(")");
                let rets = if self.is_punct("->") {
                    self.punct("->");
                    self.args(";")
                } else {
                    Vec::new()
                };
                self.punct(";");
                SyntaxDecl::Function { name, args, rets, location }
            }
            "mod" => {
                self.punct("{");
                let mut decls = Vec::new();
                while !self.is_punct("}") {
                    decls.push(self.decl());
                }
                self.punct("}");
                SyntaxDecl::Module { name, decls, location }
            }
            _ => panic!("unknown declaration keyword {}", kw),
        }
    }
}

fn parse(syntax: &str) -> Vec<SyntaxDecl> {
    let mut r = Reader { toks: lex(syntax), pos: 0 };
    let mut decls = Vec::new();
    while r.peek().is_some() {
        decls.push(r.decl());
    }
    decls
}

fn mod_(syntax: &str) -> Result<Module, ValidationError> {
    let decls = parse(syntax);
    Module::from_declarations(&decls, String::new(), String::new())
}

fn funcs_of(entries: Vec<(usize, FuncDecl)>) -> HashMap<usize, FuncDecl> {
    entries.into_iter().collect::<HashMap<_, _>>()
}

#[test]
fn structs_basic() {
    assert!(mod_("struct foo { a: i32}").is_ok());
    assert!(mod_("struct foo { a: i32, b: f32 }").is_ok());
}

#[test]
fn struct_two_atoms() {
    {
        let d = mod_("struct foo { a: i32, b: f32 }").unwrap();
        assert_eq!(
            d.data_types[&0],
            DataType {
                variant: DataTypeVariant::Struct(StructDataType {
                    members: vec![
                        StructMember {
                            name: "a".to_owned(),
                            type_: DataTypeRef::Atom(AtomType::I32),
                            offset: 0,
                        },
                        StructMember {
                            name: "b".to_owned(),
                            type_: DataTypeRef::Atom(AtomType::F32),
                            offset: 4,
                        },
                    ]
                }),
                repr_size: 8,
                align: 4,
            }
        );
    }
}

#[test]
fn struct_prev_definition() {
    // Refer to a struct defined previously:
    assert!(mod_("struct foo { a: i32, b: f64 } struct bar { a: foo }").is_ok());
}

#[test]
fn struct_next_definition() {
    // Refer to a struct defined afterwards:
    assert!(mod_("struct foo { a: i32, b: bar} struct bar { a: i32 }").is_ok());
}

#[test]
fn struct_self_referential() {
    // Refer to itself
    assert!(mod_("struct list { next: list, thing: i32 }").is_err());
}

#[test]
fn struct_empty() {
    // No members
    assert_eq!(
        mod_("struct foo {}").err().unwrap(),
        ValidationError::Empty {
            name: "foo".to_owned(),
            location: Location { line: 1, column: 0 },
        }
    );
}

#[test]
fn struct_duplicate_member() {
    // Duplicate member in struct
    assert_eq!(
        mod_("struct foo { \na: i32, \na: f64}").err().unwrap(),
        ValidationError::NameAlreadyExists {
            name: "a".to_owned(),
            at_location: Location { line: 3, column: 0 },
            previous_location: Location { line: 2, column: 0 },
        }
    );
}

#[test]
fn struct_duplicate_definition() {
    // Duplicate definition of struct
    assert_eq!(
        mod_("struct foo { a: i32 }\nstruct foo { a: i32 } ")
            .err()
            .unwrap(),
        ValidationError::NameAlreadyExists {
            name: "foo".to_owned(),
            at_location: Location { line: 2, column: 0 },
            previous_location: Location { line: 1, column: 0 },
        }
    );
}

#[test]
fn struct_undeclared_member() {
    // Refer to type that is not declared
    assert_eq!(
        mod_("struct foo { \nb: bar }").err().unwrap(),
        ValidationError::NameNotFound {
            name: "bar".to_owned(),
            use_location: Location { line: 2, column: 3 },
        }
    );
}

#[test]
fn enums() {
    assert!(mod_("enum foo { a }").is_ok());
    assert!(mod_("enum foo { a, b }").is_ok());

    {
        let d = mod_("enum foo { a, b }").unwrap();
        let members = match &d.data_types[&0].variant {
            DataTypeVariant::Enum(e) => &e.members,
            _ => panic!("Unexpected type"),
        };
        assert_eq!(members[0].name, "a");
        assert_eq!(members[1].name, "b");
    }

    // No members
    assert_eq!(
        mod_("enum foo {}").err().unwrap(),
        ValidationError::Empty {
            name: "foo".to_owned(),
            location: Location { line: 1, column: 0 },
        }
    );

    // Duplicate member in enum
    assert_eq!(
        mod_("enum foo { \na,\na }").err().unwrap(),
        ValidationError::NameAlreadyExists {
            name: "a".to_owned(),
            at_location: Location { line: 3, column: 0 },
            previous_location: Location { line: 2, column: 0 },
        }
    );

    // Duplicate definition of enum
    assert_eq!(
        mod_("enum foo { a }\nenum foo { a } ").err().unwrap(),
        ValidationError::NameAlreadyExists {
            name: "foo".to_owned(),
            at_location: Location { line: 2, column: 0 },
            previous_location: Location { line: 1, column: 0 },
        }
    );
}

#[test]
fn aliases() {
    assert!(mod_("type foo = i32;").is_ok());
    assert!(mod_("type foo = f64;").is_ok());
    assert!(mod_("type foo = u8;").is_ok());

    assert!(mod_("type foo = bar;\nenum bar { a }").is_ok());

    assert!(mod_("type link = u32;\nstruct list { next: link, thing: i32 }").is_ok());
}

#[test]
fn infinite() {
    assert_eq!(
        mod_("type foo = bar;\ntype bar = foo;").err().unwrap(),
        ValidationError::Infinite {
            name: "foo".to_owned(),
            location: Location { line: 1, column: 0 },
        }
    );

    assert_eq!(
        mod_("type foo = bar;\nstruct bar { a: foo }")
            .err()
            .unwrap(),
        ValidationError::Infinite {
            name: "foo".to_owned(),
            location: Location { line: 1, column: 0 },
        }
    );

    assert_eq!(
        mod_("type foo = bar;\nstruct bar { a: baz }\nstruct baz { c: i32, e: foo }")
            .err()
            .unwrap(),
        ValidationError::Infinite {
            name: "foo".to_owned(),
            location: Location { line: 1, column: 0 },
        }
    );
}

#[test]
fn func_trivial() {
    assert_eq!(
        mod_("fn trivial();").ok().unwrap(),
        Module {
            names: vec![Name {
                name: "trivial".to_owned(),
                location: Location { line: 1, column: 0 }
            }],
            funcs: funcs_of(vec![(
                0,
                FuncDecl {
                    args: Vec::new(),
                    rets: Vec::new(),
                    binding_name: "_trivial".to_owned(),
                    field_name: "trivial".to_owned(),
                }
            )]),
            data_types: HashMap::new(),
            data_type_ordering: Vec::new(),
            module_name: String::new(),
            binding_prefix: String::new(),
        }
    );
}

#[test]
fn func_one_arg() {
    assert_eq!(
        mod_("fn trivial(a: i64);").ok().unwrap(),
        Module {
            names: vec![Name {
                name: "trivial".to_owned(),
                location: Location { line: 1, column: 0 }
            }],
            funcs: funcs_of(vec![(
                0,
                FuncDecl {
                    args: vec![FuncArg {
                        type_: AbiType::I64,
                        name: "a".to_owned(),
                    }],
                    rets: Vec::new(),
                    binding_name: "_trivial".to_owned(),
                    field_name: "trivial".to_owned(),
                }
            )]),
            data_types: HashMap::new(),
            data_type_ordering: Vec::new(),
            module_name: String::new(),
            binding_prefix: String::new(),
        }
    );
}

#[test]
fn func_one_ret() {
    assert_eq!(
        mod_("fn trivial() -> r: i64;").ok().unwrap(),
        Module {
            names: vec![Name {
                name: "trivial".to_owned(),
                location: Location { line: 1, column: 0 }
            }],
            funcs: funcs_of(vec![(
                0,
                FuncDecl {
                    args: Vec::new(),
                    rets: vec![FuncArg {
                        name: "r".to_owned(),
                        type_: AbiType::I64,
                    }],
                    binding_name: "_trivial".to_owned(),
                    field_name: "trivial".to_owned(),
                }
            )]),
            data_types: HashMap::new(),
            data_type_ordering: Vec::new(),
            module_name: String::new(),
            binding_prefix: String::new(),
        }
    );
}

#[test]
fn func_multiple_returns() {
    assert_eq!(
        mod_("fn trivial(a: i32) -> r1: i32, r2: i32;")
            .err()
            .unwrap(),
        ValidationError::Syntax {
            expected: "at most one return value",
            location: Location { line: 1, column: 0 },
        }
    );
}

#[test]
fn func_duplicate_arg() {
    assert_eq!(
        mod_("fn trivial(a: i32, a: i32);").err().unwrap(),
        ValidationError::NameAlreadyExists {
            name: "a".to_owned(),
            at_location: Location {
                line: 1,
                column: 19
            },
            previous_location: Location {
                line: 1,
                column: 11
            },
        }
    );
}

// ---------------------------------------------------------------------------
// Layouts

fn struct_members(dt: &DataType) -> &Vec<StructMember> {
    match &dt.variant {
        DataTypeVariant::Struct(s) => &s.members,
        _ => panic!("not a struct"),
    }
}

#[test]
fn layout_members_padded_to_alignment() {
    let m = mod_("struct foo { a: u8, b: u32, c: u16 }").unwrap();
    let dt = &m.data_types[&0];
    let offsets: Vec<usize> = struct_members(dt).iter().map(|sm| sm.offset).collect();
    assert_eq!(offsets, vec![0, 4, 8]);
    assert_eq!(dt.repr_size, 12);
    assert_eq!(dt.align, 4);
}

#[test]
fn layout_nested_struct() {
    let m = mod_("struct inner { a: u8, b: u64 }\nstruct outer { x: u8, y: inner }").unwrap();
    let inner = &m.data_types[&0];
    assert_eq!(struct_members(inner)[1].offset, 8);
    assert_eq!((inner.repr_size, inner.align), (16, 8));
    let outer = &m.data_types[&1];
    assert_eq!(struct_members(outer)[0].offset, 0);
    assert_eq!(struct_members(outer)[1].offset, 8);
    assert_eq!(struct_members(outer)[1].type_, DataTypeRef::Defined(Ident(0)));
    assert_eq!((outer.repr_size, outer.align), (24, 8));
    assert_eq!(m.data_type_ordering, vec![Ident(0), Ident(1)]);
}

#[test]
fn layout_struct_defined_later() {
    let m = mod_("struct outer { x: u16, y: inner }\nstruct inner { a: bool }").unwrap();
    let outer = &m.data_types[&0];
    assert_eq!(struct_members(outer)[1].offset, 2);
    assert_eq!((outer.repr_size, outer.align), (4, 2));
    assert_eq!(m.data_type_ordering, vec![Ident(1), Ident(0)]);
}

#[test]
fn layout_tail_padding() {
    let m = mod_("struct foo { a: u64, b: u8 }").unwrap();
    let dt = &m.data_types[&0];
    assert_eq!(struct_members(dt)[1].offset, 8);
    assert_eq!((dt.repr_size, dt.align), (16, 8));
}

#[test]
fn layout_enum_and_alias() {
    let m = mod_("enum e { a, b, c }\ntype t = e;\ntype w = u16;").unwrap();
    assert_eq!((m.data_types[&0].repr_size, m.data_types[&0].align), (4, 4));
    assert_eq!((m.data_types[&1].repr_size, m.data_types[&1].align), (4, 4));
    assert_eq!((m.data_types[&2].repr_size, m.data_types[&2].align), (2, 2));
    match &m.data_types[&1].variant {
        DataTypeVariant::Alias(a) => assert_eq!(a.to, DataTypeRef::Defined(Ident(0))),
        _ => panic!("not an alias"),
    }
}

#[test]
fn ordering_follows_references() {
    let m = mod_("type foo = bar;\nstruct bar { a: baz }\nstruct baz { c: i32 }").unwrap();
    assert_eq!(m.data_type_ordering, vec![Ident(2), Ident(1), Ident(0)]);
    let ids: Vec<Ident> = m.datatypes().iter().map(|n| n.id).collect();
    assert_eq!(ids, vec![Ident(2), Ident(1), Ident(0)]);
    assert_eq!(m.datatypes()[2].name.name, "foo");
}

// ---------------------------------------------------------------------------
// Errors

#[test]
fn alias_undeclared_target() {
    assert_eq!(
        mod_("type foo = bar;").err().unwrap(),
        ValidationError::NameNotFound {
            name: "bar".to_owned(),
            use_location: Location { line: 1, column: 11 },
        }
    );
}

#[test]
fn nested_module_rejected() {
    let decls = vec![SyntaxDecl::Module {
        name: "inner".to_owned(),
        decls: Vec::new(),
        location: Location { line: 4, column: 2 },
    }];
    assert_eq!(
        Module::from_declarations(&decls, String::new(), String::new()).err().unwrap(),
        ValidationError::Syntax {
            expected: "type or function declaration",
            location: Location { line: 4, column: 2 },
        }
    );
    assert_eq!(
        mod_("struct foo { a: i32 }\nmod m { }").err().unwrap(),
        ValidationError::Syntax {
            expected: "type or function declaration",
            location: Location { line: 2, column: 0 },
        }
    );
}

#[test]
fn names_checked_before_declarations() {
    // The first declaration is faulty, but the repeated name is found first.
    assert_eq!(
        mod_("struct foo { a: nothing }\nenum foo { a }").err().unwrap(),
        ValidationError::NameAlreadyExists {
            name: "foo".to_owned(),
            at_location: Location { line: 2, column: 0 },
            previous_location: Location { line: 1, column: 0 },
        }
    );
}

#[test]
fn first_faulty_member_wins() {
    assert_eq!(
        mod_("struct foo { a: nothing, a: i32 }").err().unwrap(),
        ValidationError::NameNotFound {
            name: "nothing".to_owned(),
            use_location: Location { line: 1, column: 16 },
        }
    );
}

#[test]
fn return_named_like_argument() {
    assert_eq!(
        mod_("fn f(a: i32) -> a: i64;").err().unwrap(),
        ValidationError::NameAlreadyExists {
            name: "a".to_owned(),
            at_location: Location { line: 1, column: 16 },
            previous_location: Location { line: 1, column: 5 },
        }
    );
}

#[test]
fn mutual_struct_cycle_rejected() {
    assert_eq!(
        mod_("struct a { x: b }\nstruct b { y: a }\nstruct ok { z: u8 }").err().unwrap(),
        ValidationError::Infinite {
            name: "a".to_owned(),
            location: Location { line: 1, column: 0 },
        }
    );
}

#[test]
fn struct_naming_a_function_is_never_laid_out() {
    assert_eq!(
        mod_("fn f();\nstruct s { a: f }").err().unwrap(),
        ValidationError::Infinite {
            name: "s".to_owned(),
            location: Location { line: 2, column: 0 },
        }
    );
}

// ---------------------------------------------------------------------------
// Functions and lookups

#[test]
fn binding_name_uses_snake_case_and_prefix() {
    let decls = parse("fn HelloWorld(x: i32);\nfn already_snake();");
    let m = Module::from_declarations(&decls, "m".to_owned(), "lucet".to_owned()).unwrap();
    assert_eq!(m.funcs[&0].binding_name, "lucet_hello_world");
    assert_eq!(m.funcs[&0].field_name, "HelloWorld");
    assert_eq!(m.funcs[&1].binding_name, "lucet_already_snake");
    assert_eq!(m.module_name, "m");
    assert_eq!(
        m.func_bindings(),
        vec![
            ("HelloWorld".to_owned(), "lucet_hello_world".to_owned()),
            ("already_snake".to_owned(), "lucet_already_snake".to_owned()),
        ]
    );
}

#[test]
fn lookups_by_identifier() {
    let m = mod_("struct s { a: i32 }\nfn f(x: f64) -> r: f32;\nenum e { v }").unwrap();
    let s = m.get_datatype(Ident(0)).unwrap();
    assert_eq!(s.id, Ident(0));
    assert_eq!(s.name.name, "s");
    assert_eq!(s.entity.repr_size, 4);
    assert!(m.get_datatype(Ident(1)).is_none());
    let f = m.get_func_decl(Ident(1)).unwrap();
    assert_eq!(f.name.name, "f");
    assert_eq!(f.entity.args[0].type_, AbiType::F64);
    assert_eq!(f.entity.rets[0].name, "r");
    assert!(m.get_func_decl(Ident(2)).is_none());
    let fs: Vec<Ident> = m.func_decls().iter().map(|n| n.id).collect();
    assert_eq!(fs, vec![Ident(1)]);
    let ds: Vec<Ident> = m.datatypes().iter().map(|n| n.id).collect();
    assert_eq!(ds, vec![Ident(0), Ident(2)]);
}

#[test]
fn func_bindings_one_pair_per_field_name() {
    let fd = |field: &str, binding: &str| FuncDecl {
        args: Vec::new(),
        rets: Vec::new(),
        field_name: field.to_owned(),
        binding_name: binding.to_owned(),
    };
    let loc = Location { line: 1, column: 0 };
    let m = Module {
        names: vec![
            Name { name: "a".to_owned(), location: loc },
            Name { name: "b".to_owned(), location: loc },
            Name { name: "c".to_owned(), location: loc },
        ],
        data_types: HashMap::new(),
        data_type_ordering: Vec::new(),
        funcs: funcs_of(vec![(0, fd("x", "_first")), (1, fd("y", "_y")), (2, fd("x", "_last"))]),
        module_name: String::new(),
        binding_prefix: String::new(),
    };
    assert_eq!(
        m.func_bindings(),
        vec![
            ("x".to_owned(), "_last".to_owned()),
            ("y".to_owned(), "_y".to_owned()),
        ]
    );
}
