//! Tests of the elaborator, the core checker, the normaliser, delaboration,
//! and printing.

use ddl::ast::{CmpOp, Term};
use ddl::elaborate::{elaborate_module, ElabError};
use ddl::integer::Integer;
use ddl::span::Span;
use ddl::surface;

fn sp() -> Span {
    Span::new(0, 0)
}

fn name(n: &str) -> surface::Term {
    surface::Term::Name(sp(), n.to_owned())
}

fn name_at(start: u32, end: u32, n: &str) -> surface::Term {
    surface::Term::Name(Span::new(start, end), n.to_owned())
}

fn num(v: u64) -> surface::Term {
    surface::Term::NumberLiteral(sp(), Integer::from_u64(v))
}

fn alias(n: &str, term: surface::Term) -> surface::Item {
    surface::Item::Alias(surface::Alias {
        span: sp(),
        doc: Vec::new(),
        name: (sp(), n.to_owned()),
        ty: None,
        term,
    })
}

fn module(items: Vec<surface::Item>) -> surface::Module {
    surface::Module {
        file_id: 0,
        doc: Vec::new(),
        items,
    }
}

#[test]
fn unbound_name() {
    // alias A = Foo; with no Foo in scope: exactly one diagnostic, an
    // unbound-name error spanning Foo.
    let m = module(vec![alias("A", name_at(10, 13, "Foo"))]);
    let (_, diags) = elaborate_module(&m);
    assert_eq!(diags.len(), 1);
    match &diags[0] {
        ElabError::UnboundName { span, name } => {
            assert_eq!(name, "Foo");
            assert_eq!((span.start, span.end), (10, 13));
        }
        other => panic!("unexpected diagnostic {:?}", other),
    }
}

#[test]
fn duplicate_field() {
    // struct { x : U8, x : U8 }: a duplicate-field error carrying both
    // occurrences' spans.
    let m = module(vec![surface::Item::Struct(surface::StructType {
        span: sp(),
        doc: Vec::new(),
        name: (sp(), "S".to_owned()),
        fields: vec![
            surface::TypeField {
                doc: Vec::new(),
                name: (Span::new(9, 10), "x".to_owned()),
                term: name("U8"),
            },
            surface::TypeField {
                doc: Vec::new(),
                name: (Span::new(17, 18), "x".to_owned()),
                term: name("U8"),
            },
        ],
    })]);
    let (_, diags) = elaborate_module(&m);
    assert_eq!(diags.len(), 1);
    match &diags[0] {
        ElabError::DuplicateField {
            label,
            first,
            second,
        } => {
            assert_eq!(label, "x");
            assert_eq!((first.start, first.end), (9, 10));
            assert_eq!((second.start, second.end), (17, 18));
        }
        other => panic!("unexpected diagnostic {:?}", other),
    }
}

#[test]
fn array_size_must_be_an_integer() {
    // [U8; "hello"], written as Array "hello" U8: a type mismatch whose
    // expected type is Int.
    let m = module(vec![alias(
        "A",
        surface::Term::App(
            sp(),
            Box::new(name("Array")),
            vec![
                surface::Term::StringLiteral(sp(), "hello".to_owned()),
                name("U8"),
            ],
        ),
    )]);
    let (_, diags) = elaborate_module(&m);
    assert_eq!(diags.len(), 1);
    match &diags[0] {
        ElabError::TypeMismatch {
            expected, found, ..
        } => {
            assert!(matches!(expected, Term::IntType(_)));
            assert!(matches!(found, Term::StringType(_)));
        }
        other => panic!("unexpected diagnostic {:?}", other),
    }
}

#[test]
fn where_predicate_checks_at_bool() {
    // { x : U8 | x < 10 } elaborates without diagnostics.
    let m = module(vec![alias(
        "Small",
        surface::Term::Where(
            sp(),
            Box::new(name("U8")),
            (sp(), "x".to_owned()),
            Box::new(surface::Term::Binop(
                sp(),
                CmpOp::Lt,
                Box::new(name("x")),
                Box::new(num(10)),
            )),
        ),
    )]);
    let (core, diags) = elaborate_module(&m);
    assert!(diags.is_empty(), "unexpected diagnostics: {:?}", diags);
    match &core.items[0] {
        ddl::ast::Item::Alias(a) => assert!(matches!(a.term, Term::Constrained(..))),
        other => panic!("unexpected item {:?}", other),
    }
}

#[test]
fn where_predicate_not_bool_is_mismatch() {
    // { x : U8 | 5 }: the predicate must check at Bool; a non-Bool predicate
    // yields a type mismatch expecting Bool.
    let m = module(vec![alias(
        "Small",
        surface::Term::Where(
            sp(),
            Box::new(name("U8")),
            (sp(), "x".to_owned()),
            Box::new(num(5)),
        ),
    )]);
    let (_, diags) = elaborate_module(&m);
    assert_eq!(diags.len(), 1);
    match &diags[0] {
        ElabError::TypeMismatch { expected, .. } => {
            assert!(matches!(expected, Term::BoolType(_)));
        }
        other => panic!("unexpected diagnostic {:?}", other),
    }
}

#[test]
fn docs_carried_verbatim() {
    // Doc lines on a struct item reach the core item unchanged.
    let doc = vec![" A pixel.".to_owned(), " Tightly packed.".to_owned()];
    let m = module(vec![surface::Item::Struct(surface::StructType {
        span: sp(),
        doc: doc.clone(),
        name: (sp(), "Pixel".to_owned()),
        fields: vec![surface::TypeField {
            doc: vec![" Red channel.".to_owned()],
            name: (sp(), "r".to_owned()),
            term: name("U8"),
        }],
    })]);
    let (core, diags) = elaborate_module(&m);
    assert!(diags.is_empty());
    match &core.items[0] {
        ddl::ast::Item::Struct(s) => {
            assert_eq!(s.doc, doc);
            assert_eq!(s.name, "Pixel");
            assert_eq!(s.fields[0].doc, vec![" Red channel.".to_owned()]);
        }
        other => panic!("unexpected item {:?}", other),
    }
}

#[test]
fn duplicate_definition() {
    let m = module(vec![alias("A", name("U8")), alias("A", name("U16Le"))]);
    let (_, diags) = elaborate_module(&m);
    assert_eq!(diags.len(), 1);
    assert!(matches!(&diags[0], ElabError::DuplicateDefinition { .. }));
}

#[test]
fn literal_out_of_range() {
    // A float literal that overflowed to infinity in the lexer is rejected.
    let inf = f32::INFINITY.to_bits();
    let m = module(vec![surface::Item::Alias(surface::Alias {
        span: sp(),
        doc: Vec::new(),
        name: (sp(), "Big".to_owned()),
        ty: Some(name("F32")),
        term: surface::Term::FloatLiteral(sp(), surface::FloatBits::F32(inf)),
    })]);
    let (_, diags) = elaborate_module(&m);
    assert_eq!(diags.len(), 1);
    assert!(matches!(&diags[0], ElabError::LiteralOutOfRange { .. }));
}

#[test]
fn float_literal_at_its_width() {
    let bits = 2.5f64.to_bits();
    let m = module(vec![surface::Item::Alias(surface::Alias {
        span: sp(),
        doc: Vec::new(),
        name: (sp(), "C".to_owned()),
        ty: Some(name("F64")),
        term: surface::Term::FloatLiteral(sp(), surface::FloatBits::F64(bits)),
    })]);
    let (core, diags) = elaborate_module(&m);
    assert!(diags.is_empty());
    match &core.items[0] {
        ddl::ast::Item::Alias(a) => match &a.term {
            Term::Ann(t, _) => assert!(matches!(**t, Term::F64Const(_, b) if b == bits)),
            other => panic!("unexpected term {:?}", other),
        },
        other => panic!("unexpected item {:?}", other),
    }
}

#[test]
fn accepted_module_passes_check_program() {
    // The elaborator's output for an accepted module is well typed by the
    // core checker.
    let m = module(vec![
        alias("Byte", name("U8")),
        surface::Item::Struct(surface::StructType {
            span: sp(),
            doc: Vec::new(),
            name: (sp(), "Pair".to_owned()),
            fields: vec![
                surface::TypeField {
                    doc: Vec::new(),
                    name: (sp(), "len".to_owned()),
                    term: name("Byte"),
                },
                surface::TypeField {
                    doc: Vec::new(),
                    name: (sp(), "data".to_owned()),
                    term: surface::Term::App(
                        sp(),
                        Box::new(name("Array")),
                        vec![name("len"), name("U8")],
                    ),
                },
            ],
        }),
    ]);
    let (core, diags) = elaborate_module(&m);
    assert!(diags.is_empty(), "unexpected diagnostics: {:?}", diags);
    assert!(ddl::check::check_program(&core).is_ok());
}

#[test]
fn ill_formed_module_fails_check_program() {
    // A core module with an error sentinel in an alias body is rejected.
    let core = ddl::ast::Module {
        file_id: 0,
        doc: Vec::new(),
        items: vec![ddl::ast::Item::Alias(ddl::ast::Alias {
            span: sp(),
            doc: Vec::new(),
            name: "Broken".to_owned(),
            term: Term::Error(sp()),
        })],
    };
    assert!(ddl::check::check_program(&core).is_err());
}

#[test]
fn kind_of_classifies() {
    let genv = Vec::new();
    let mut lctx = Vec::new();
    let fmt = Term::Prim(sp(), ddl::ast::TypeConst::U(1, ddl::ast::Endianness::Little));
    assert_eq!(
        ddl::check::kind_of(&genv, &mut lctx, &fmt),
        Some(ddl::ast::Universe::Format)
    );
    let host = Term::BoolType(sp());
    assert_eq!(
        ddl::check::kind_of(&genv, &mut lctx, &host),
        Some(ddl::ast::Universe::Type)
    );
    let kind = Term::Universe(sp(), ddl::ast::Universe::Kind);
    assert_eq!(ddl::check::kind_of(&genv, &mut lctx, &kind), None);
}

#[test]
fn annotations_are_transparent() {
    // if true then (1 : Int) else 2 normalises to 1.
    let m = module(vec![alias(
        "A",
        surface::Term::If(
            sp(),
            Box::new(name("true")),
            Box::new(surface::Term::Ann(Box::new(num(1)), Box::new(name("Int")))),
            Box::new(num(2)),
        ),
    )]);
    let (core, diags) = elaborate_module(&m);
    assert!(diags.is_empty());
    let env = ddl::check::module_env(&core);
    let lhs = Term::Item(sp(), "A".to_owned());
    let rhs = Term::IntConst(sp(), Integer::from_u64(1));
    assert!(ddl::semantics::equal(&env, &lhs, &rhs));
}

#[test]
fn comparison_folds_under_normalisation() {
    // 3 < 10 is definitionally true.
    let lhs = Term::Cmp(
        sp(),
        CmpOp::Lt,
        Box::new(Term::IntConst(sp(), Integer::from_u64(3))),
        Box::new(Term::IntConst(sp(), Integer::from_u64(10))),
    );
    let rhs = Term::BoolConst(sp(), true);
    let genv = Vec::new();
    assert!(ddl::semantics::equal(&genv, &lhs, &rhs));
}

#[test]
fn normalize_is_idempotent_on_examples() {
    let genv = Vec::new();
    let t = Term::BoolElim(
        sp(),
        Box::new(Term::Cmp(
            sp(),
            CmpOp::Ge,
            Box::new(Term::IntConst(sp(), Integer::from_u64(5))),
            Box::new(Term::IntConst(sp(), Integer::from_u64(5))),
        )),
        Box::new(Term::IntConst(sp(), Integer::from_u64(1))),
        Box::new(Term::IntConst(sp(), Integer::from_u64(2))),
    );
    let mut env = Vec::new();
    let once = ddl::semantics::normalize(&genv, &mut env, &t);
    let twice = ddl::semantics::normalize(&genv, &mut env, &once);
    assert!(once.alpha_eq(&twice));
    assert!(once.alpha_eq(&Term::IntConst(sp(), Integer::from_u64(1))));
}

#[test]
fn definitional_equality_ignores_spans_and_labels() {
    let genv = Vec::new();
    let a = Term::Var(Span::new(1, 2), 0, "x".to_owned());
    let b = Term::Var(Span::new(7, 9), 0, "y".to_owned());
    assert!(ddl::semantics::equal(&genv, &a, &b));
}

#[test]
fn delaborate_round_trips_literals_and_names() {
    let t = Term::IntConst(sp(), Integer::from_u64(42));
    match ddl::delaborate::delaborate_term(&t) {
        surface::Term::NumberLiteral(_, n) => assert_eq!(n.to_usize(), Some(42)),
        other => panic!("unexpected surface term {:?}", other),
    }
    let p = Term::Prim(sp(), ddl::ast::TypeConst::U(2, ddl::ast::Endianness::Big));
    match ddl::delaborate::delaborate_term(&p) {
        surface::Term::Name(_, n) => assert_eq!(n, "U16Be"),
        other => panic!("unexpected surface term {:?}", other),
    }
}

#[test]
fn delaborate_module_keeps_names_and_docs() {
    let m = module(vec![surface::Item::Struct(surface::StructType {
        span: sp(),
        doc: vec![" doc".to_owned()],
        name: (sp(), "Pt".to_owned()),
        fields: vec![surface::TypeField {
            doc: Vec::new(),
            name: (sp(), "x".to_owned()),
            term: name("U16Le"),
        }],
    })]);
    let (core, diags) = elaborate_module(&m);
    assert!(diags.is_empty());
    let back = ddl::delaborate::delaborate_module(&core);
    match &back.items[0] {
        surface::Item::Struct(s) => {
            assert_eq!(s.name.1, "Pt");
            assert_eq!(s.doc, vec![" doc".to_owned()]);
            assert_eq!(s.fields[0].name.1, "x");
            match &s.fields[0].term {
                surface::Term::Name(_, n) => assert_eq!(n, "U16Le"),
                other => panic!("unexpected field term {:?}", other),
            }
        }
        other => panic!("unexpected item {:?}", other),
    }
}

#[test]
fn printing_a_struct() {
    let m = module(vec![surface::Item::Struct(surface::StructType {
        span: sp(),
        doc: vec![" A point.".to_owned()],
        name: (sp(), "Point".to_owned()),
        fields: vec![
            surface::TypeField {
                doc: Vec::new(),
                name: (sp(), "x".to_owned()),
                term: name("U16Le"),
            },
            surface::TypeField {
                doc: Vec::new(),
                name: (sp(), "y".to_owned()),
                term: name("U16Le"),
            },
        ],
    })]);
    let text = m.doc();
    assert_eq!(
        text,
        "/// A point.\nstruct Point {\n    x : U16Le,\n    y : U16Le,\n}\n"
    );
}

#[test]
fn printing_an_alias_and_numbers() {
    let m = module(vec![surface::Item::Alias(surface::Alias {
        span: sp(),
        doc: Vec::new(),
        name: (sp(), "Three".to_owned()),
        ty: Some(name("Int")),
        term: num(3),
    })]);
    let text = m.doc();
    assert_eq!(text, "alias Three : Int = 3;\n");
    assert_eq!(
        ddl::print::integer_to_string(&Integer::from_i64(-250)),
        "-250"
    );
    assert_eq!(ddl::print::integer_to_string(&Integer::from_u64(0)), "0");
}

#[test]
fn module_reference_doc() {
    let m = module(vec![
        alias("Byte", name("U8")),
        surface::Item::Struct(surface::StructType {
            span: sp(),
            doc: vec!["A header.".to_owned()],
            name: (sp(), "Header".to_owned()),
            fields: Vec::new(),
        }),
    ]);
    let (core, diags) = elaborate_module(&m);
    assert!(diags.is_empty());
    let text = ddl::print::compile_module_doc(&core, "ddl", "0.1.0");
    assert_eq!(text, "<!-- ddl 0.1.0 -->\n\n## Header\n\nA header.\n");
}

#[test]
fn diagnostics_render_with_severity_and_span() {
    let m = module(vec![alias("A", name_at(4, 7, "Foo"))]);
    let (_, diags) = elaborate_module(&m);
    let d = ddl::diagnostics::to_diagnostic(&diags[0]);
    assert!(matches!(d.severity, ddl::diagnostics::Severity::Error));
    assert_eq!((d.span.start, d.span.end), (4, 7));
    assert_eq!(d.message, "cannot find `Foo` in this scope");
}

#[test]
fn item_order_defines_scope() {
    // An item may reference earlier items only.
    let m = module(vec![alias("A", name("B")), alias("B", name("U8"))]);
    let (_, diags) = elaborate_module(&m);
    assert_eq!(diags.len(), 1);
    assert!(matches!(&diags[0], ElabError::UnboundName { name, .. } if name == "B"));
}

#[test]
fn error_recovery_keeps_going() {
    // One module, several mistakes: every item is elaborated and every
    // mistake reported.
    let m = module(vec![
        alias("A", name("Foo")),
        alias("B", name("Bar")),
        alias("C", name("U8")),
    ]);
    let (core, diags) = elaborate_module(&m);
    assert_eq!(core.items.len(), 3);
    assert_eq!(diags.len(), 2);
}

#[test]
fn alias_module_is_well_typed() {
    // A module of aliases, one of them annotated, elaborates cleanly and the
    // emitted core passes the core checker.
    let m = module(vec![
        alias("Byte", name("U8")),
        surface::Item::Alias(surface::Alias {
            span: sp(),
            doc: Vec::new(),
            name: (sp(), "Word".to_owned()),
            ty: Some(name("Format")),
            term: name("U16Le"),
        }),
        alias("Second", name("Byte")),
    ]);
    let (core, diags) = elaborate_module(&m);
    assert!(diags.is_empty(), "unexpected diagnostics: {:?}", diags);
    assert!(ddl::check::check_program(&core).is_ok());
}

#[test]
fn constrained_base_needs_host_representation() {
    // A constrained format's binder stands for the parsed value, so the base
    // must have a primitive host representation; an array base is rejected.
    let m = module(vec![alias(
        "Odd",
        surface::Term::Where(
            sp(),
            Box::new(surface::Term::App(
                sp(),
                Box::new(name("Array")),
                vec![num(3), name("U8")],
            )),
            (sp(), "x".to_owned()),
            Box::new(surface::Term::Binop(
                sp(),
                CmpOp::Lt,
                Box::new(name("x")),
                Box::new(num(10)),
            )),
        ),
    )]);
    let (_, diags) = elaborate_module(&m);
    assert!(diags
        .iter()
        .any(|d| matches!(d, ElabError::ExpectedFormat { .. })));
}

#[test]
fn field_binder_without_host_representation_rejected_when_used() {
    // struct S { a : Array 3 U8, b : a }: the binder `a` stands for a parsed
    // array, which has no primitive host representation, so using it as a
    // field type draws a diagnostic — and the core checker agrees.
    let m = module(vec![surface::Item::Struct(surface::StructType {
        span: sp(),
        doc: Vec::new(),
        name: (sp(), "S".to_owned()),
        fields: vec![
            surface::TypeField {
                doc: Vec::new(),
                name: (sp(), "a".to_owned()),
                term: surface::Term::App(
                    sp(),
                    Box::new(name("Array")),
                    vec![num(3), name("U8")],
                ),
            },
            surface::TypeField {
                doc: Vec::new(),
                name: (sp(), "b".to_owned()),
                term: name("a"),
            },
        ],
    })]);
    let (core, diags) = elaborate_module(&m);
    assert_eq!(diags.len(), 1);
    assert!(matches!(&diags[0], ElabError::ExpectedFormat { .. }));
    // The module was not accepted, and the emitted core is rejected too:
    // elaborator and checker agree.
    assert!(ddl::check::check_program(&core).is_err());
}

#[test]
fn array_length_from_array_field_is_mismatch() {
    // struct S { a : Array 3 U8, c : Array a U8 }: an array-valued binder is
    // not an integer, so using it as an array length is a type mismatch
    // whose expected type is Int.
    let m = module(vec![surface::Item::Struct(surface::StructType {
        span: sp(),
        doc: Vec::new(),
        name: (sp(), "S".to_owned()),
        fields: vec![
            surface::TypeField {
                doc: Vec::new(),
                name: (sp(), "a".to_owned()),
                term: surface::Term::App(
                    sp(),
                    Box::new(name("Array")),
                    vec![num(3), name("U8")],
                ),
            },
            surface::TypeField {
                doc: Vec::new(),
                name: (sp(), "c".to_owned()),
                term: surface::Term::App(
                    sp(),
                    Box::new(name("Array")),
                    vec![name("a"), name("U8")],
                ),
            },
        ],
    })]);
    let (core, diags) = elaborate_module(&m);
    assert_eq!(diags.len(), 1);
    match &diags[0] {
        ElabError::TypeMismatch { expected, found, .. } => {
            assert!(matches!(expected, Term::IntType(_)));
            assert!(matches!(found, Term::ArrayType(..)));
        }
        other => panic!("unexpected diagnostic {:?}", other),
    }
    assert!(ddl::check::check_program(&core).is_err());
}

#[test]
fn integer_field_binder_still_usable() {
    // A U8 field's binder is an integer and stays usable as a length: the
    // accepted module passes the core checker.
    let m = module(vec![surface::Item::Struct(surface::StructType {
        span: sp(),
        doc: Vec::new(),
        name: (sp(), "S".to_owned()),
        fields: vec![
            surface::TypeField {
                doc: Vec::new(),
                name: (sp(), "len".to_owned()),
                term: name("U8"),
            },
            surface::TypeField {
                doc: Vec::new(),
                name: (sp(), "data".to_owned()),
                term: surface::Term::App(
                    sp(),
                    Box::new(name("Array")),
                    vec![name("len"), name("U8")],
                ),
            },
        ],
    })]);
    let (core, diags) = elaborate_module(&m);
    assert!(diags.is_empty(), "unexpected diagnostics: {:?}", diags);
    assert!(ddl::check::check_program(&core).is_ok());
}
