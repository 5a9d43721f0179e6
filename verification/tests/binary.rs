//! Tests of the format interpreter and the integer model.

use ddl::ast::{Endianness, Term, TypeConst};
use ddl::integer::Integer;
use ddl::parser::{parse, ParseError};
use ddl::semantics::ItemEntry;
use ddl::span::Span;
use ddl::surface;

fn sp() -> Span {
    Span::new(0, 0)
}

fn no_items() -> Vec<ItemEntry> {
    Vec::new()
}

fn name(n: &str) -> surface::Term {
    surface::Term::Name(sp(), n.to_owned())
}

fn num(v: u64) -> surface::Term {
    surface::Term::NumberLiteral(sp(), Integer::from_u64(v))
}

/// Elaborates a one-struct module and returns its record-type chain plus the
/// item environment.
fn struct_chain(fields: Vec<(&str, surface::Term)>) -> (Term, Vec<ItemEntry>) {
    let mut tfields = Vec::new();
    for (label, term) in fields {
        tfields.push(surface::TypeField {
            doc: Vec::new(),
            name: (sp(), label.to_owned()),
            term,
        });
    }
    let m = surface::Module {
        file_id: 0,
        doc: Vec::new(),
        items: vec![surface::Item::Struct(surface::StructType {
            span: sp(),
            doc: Vec::new(),
            name: (sp(), "Main".to_owned()),
            fields: tfields,
        })],
    };
    let (core, diags) = ddl::elaborate::elaborate_module(&m);
    assert!(diags.is_empty(), "unexpected diagnostics: {:?}", diags);
    let chain = match &core.items[0] {
        ddl::ast::Item::Struct(s) => s.record_type(),
        _ => unreachable!(),
    };
    (chain, ddl::check::module_env(&core))
}

fn int_result(r: Result<Term, ParseError>) -> Integer {
    match r {
        Ok(Term::IntConst(_, n)) => n,
        other => panic!("expected an integer value, got {:?}", other),
    }
}

#[test]
fn endian_u16_le() {
    let ty = Term::Prim(sp(), TypeConst::U(2, Endianness::Little));
    let bytes: [u8; 2] = [0x01, 0x00];
    let mut pos: usize = 0;
    let v = int_result(parse(&no_items(), &ty, &bytes, &mut pos));
    assert_eq!(v.to_usize(), Some(1));
    assert_eq!(pos, 2);
}

#[test]
fn endian_u16_be() {
    let ty = Term::Prim(sp(), TypeConst::U(2, Endianness::Big));
    let bytes: [u8; 2] = [0x01, 0x00];
    let mut pos: usize = 0;
    let v = int_result(parse(&no_items(), &ty, &bytes, &mut pos));
    assert_eq!(v.to_usize(), Some(256));
    assert_eq!(pos, 2);
}

#[test]
fn u32_le_value() {
    let ty = Term::Prim(sp(), TypeConst::U(4, Endianness::Little));
    let bytes: [u8; 4] = [0x78, 0x56, 0x34, 0x12];
    let mut pos: usize = 0;
    let v = int_result(parse(&no_items(), &ty, &bytes, &mut pos));
    assert_eq!(v.to_usize(), Some(0x12345678));
    assert_eq!(pos, 4);
}

#[test]
fn s8_sign_extends() {
    let ty = Term::Prim(sp(), TypeConst::S(1, Endianness::Little));
    let bytes: [u8; 1] = [0xFF];
    let mut pos: usize = 0;
    let v = int_result(parse(&no_items(), &ty, &bytes, &mut pos));
    assert!(v.eq(&Integer::from_i64(-1)));
}

#[test]
fn s16_be_sign_extends() {
    let ty = Term::Prim(sp(), TypeConst::S(2, Endianness::Big));
    let bytes: [u8; 2] = [0x80, 0x00];
    let mut pos: usize = 0;
    let v = int_result(parse(&no_items(), &ty, &bytes, &mut pos));
    assert!(v.eq(&Integer::from_i64(-32768)));
}

#[test]
fn f32_bits_preserved() {
    let ty = Term::Prim(sp(), TypeConst::F(4, Endianness::Little));
    let bytes = 1.5f32.to_bits().to_le_bytes();
    let mut pos: usize = 0;
    match parse(&no_items(), &ty, &bytes, &mut pos) {
        Ok(Term::F32Const(_, bits)) => assert_eq!(f32::from_bits(bits), 1.5f32),
        other => panic!("expected a float value, got {:?}", other),
    }
}

#[test]
fn f64_bits_preserved() {
    let ty = Term::Prim(sp(), TypeConst::F(8, Endianness::Big));
    let bytes = (-0.25f64).to_bits().to_be_bytes();
    let mut pos: usize = 0;
    match parse(&no_items(), &ty, &bytes, &mut pos) {
        Ok(Term::F64Const(_, bits)) => assert_eq!(f64::from_bits(bits), -0.25f64),
        other => panic!("expected a float value, got {:?}", other),
    }
}

#[test]
fn eof_mid_field() {
    let ty = Term::Prim(sp(), TypeConst::U(2, Endianness::Little));
    let bytes: [u8; 1] = [0x01];
    let mut pos: usize = 0;
    let r = parse(&no_items(), &ty, &bytes, &mut pos);
    assert!(matches!(r, Err(ParseError::UnexpectedEof)));
    // The stream is left at the failure position: nothing was read.
    assert_eq!(pos, 0);
}

#[test]
fn dependent_size_roundtrip() {
    // struct { len : U8, data : Array len U8 } against [03, 0A, 0B, 0C, FF]:
    // the record's data field has exactly the three announced bytes, and the
    // byte at offset 4 is not consumed.
    let (chain, env) = struct_chain(vec![
        ("len", name("U8")),
        (
            "data",
            surface::Term::App(
                sp(),
                Box::new(name("Array")),
                vec![name("len"), name("U8")],
            ),
        ),
    ]);
    let bytes: [u8; 5] = [0x03, 0x0A, 0x0B, 0x0C, 0xFF];
    let mut pos: usize = 0;
    let v = parse(&env, &chain, &bytes, &mut pos).expect("parse should succeed");
    assert_eq!(pos, 4);
    match v {
        Term::RecordIntroCons(_, len_label, len_v, rest) => {
            assert_eq!(len_label, "len");
            match *len_v {
                Term::IntConst(_, n) => assert_eq!(n.to_usize(), Some(3)),
                other => panic!("unexpected length value {:?}", other),
            }
            match *rest {
                Term::RecordIntroCons(_, data_label, data_v, tail) => {
                    assert_eq!(data_label, "data");
                    match *data_v {
                        Term::ArrayIntro(_, elems) => {
                            assert_eq!(elems.len(), 3);
                            let expected: [usize; 3] = [0x0A, 0x0B, 0x0C];
                            for (e, want) in elems.iter().zip(expected.iter()) {
                                match e {
                                    Term::IntConst(_, n) => {
                                        assert_eq!(n.to_usize(), Some(*want))
                                    }
                                    other => panic!("unexpected element {:?}", other),
                                }
                            }
                        }
                        other => panic!("unexpected data value {:?}", other),
                    }
                    assert!(matches!(*tail, Term::RecordIntroNil(_)));
                }
                other => panic!("unexpected record tail {:?}", other),
            }
        }
        other => panic!("unexpected record {:?}", other),
    }
}

#[test]
fn parse_is_deterministic() {
    let (chain, env) = struct_chain(vec![
        ("len", name("U8")),
        (
            "data",
            surface::Term::App(
                sp(),
                Box::new(name("Array")),
                vec![name("len"), name("U8")],
            ),
        ),
    ]);
    let bytes: [u8; 4] = [0x03, 0x0A, 0x0B, 0x0C];
    let mut pos1: usize = 0;
    let mut pos2: usize = 0;
    let v1 = parse(&env, &chain, &bytes, &mut pos1).expect("first parse");
    let v2 = parse(&env, &chain, &bytes, &mut pos2).expect("second parse");
    assert!(v1.alpha_eq(&v2));
    assert_eq!(pos1, pos2);
}

#[test]
fn fixed_array_consumes_sum_of_sizes() {
    // Array 3 U16Le reads exactly 3 * 2 bytes.
    let len = Term::IntConst(sp(), Integer::from_u64(3));
    let elem = Term::Prim(sp(), TypeConst::U(2, Endianness::Little));
    let ty = Term::ArrayType(sp(), Box::new(len), Box::new(elem));
    let bytes: [u8; 7] = [1, 0, 2, 0, 3, 0, 9];
    let mut pos: usize = 0;
    let v = parse(&no_items(), &ty, &bytes, &mut pos).expect("parse should succeed");
    assert_eq!(pos, 6);
    match v {
        Term::ArrayIntro(_, elems) => assert_eq!(elems.len(), 3),
        other => panic!("unexpected value {:?}", other),
    }
}

#[test]
fn negative_array_length_rejected() {
    let len = Term::IntConst(sp(), Integer::from_i64(-2));
    let elem = Term::Prim(sp(), TypeConst::U(1, Endianness::Little));
    let ty = Term::ArrayType(sp(), Box::new(len), Box::new(elem));
    let bytes: [u8; 2] = [0, 0];
    let mut pos: usize = 0;
    let r = parse(&no_items(), &ty, &bytes, &mut pos);
    assert!(matches!(r, Err(ParseError::BadArrayLength(_))));
}

#[test]
fn host_type_is_invalid_format() {
    let ty = Term::BoolType(sp());
    let bytes: [u8; 1] = [0];
    let mut pos: usize = 0;
    let r = parse(&no_items(), &ty, &bytes, &mut pos);
    assert!(matches!(r, Err(ParseError::InvalidFormat(_))));
}

#[test]
fn constrained_format_is_rejected_at_parse_time() {
    // { x : U8 | x < 10 } kind-checks, but the interpreter has no branch for
    // it and rejects it rather than silently accepting.
    let m = surface::Module {
        file_id: 0,
        doc: Vec::new(),
        items: vec![surface::Item::Alias(surface::Alias {
            span: sp(),
            doc: Vec::new(),
            name: (sp(), "Small".to_owned()),
            ty: None,
            term: surface::Term::Where(
                sp(),
                Box::new(name("U8")),
                (sp(), "x".to_owned()),
                Box::new(surface::Term::Binop(
                    sp(),
                    ddl::ast::CmpOp::Lt,
                    Box::new(name("x")),
                    Box::new(num(10)),
                )),
            ),
        })],
    };
    let (core, diags) = ddl::elaborate::elaborate_module(&m);
    assert!(diags.is_empty());
    let env = ddl::check::module_env(&core);
    let ty = Term::Item(sp(), "Small".to_owned());
    let bytes: [u8; 1] = [5];
    let mut pos: usize = 0;
    let r = parse(&env, &ty, &bytes, &mut pos);
    assert!(matches!(r, Err(ParseError::InvalidFormat(_))));
}

#[test]
fn alias_unfolds_for_parsing() {
    let m = surface::Module {
        file_id: 0,
        doc: Vec::new(),
        items: vec![surface::Item::Alias(surface::Alias {
            span: sp(),
            doc: Vec::new(),
            name: (sp(), "Word".to_owned()),
            ty: None,
            term: name("U16Be"),
        })],
    };
    let (core, diags) = ddl::elaborate::elaborate_module(&m);
    assert!(diags.is_empty());
    let env = ddl::check::module_env(&core);
    let ty = Term::Item(sp(), "Word".to_owned());
    let bytes: [u8; 2] = [0x12, 0x34];
    let mut pos: usize = 0;
    let v = int_result(parse(&env, &ty, &bytes, &mut pos));
    assert_eq!(v.to_usize(), Some(0x1234));
}

#[test]
fn integer_construction_and_order() {
    let a = Integer::from_u64(12345);
    assert_eq!(a.to_usize(), Some(12345));
    assert!(!a.is_negative());
    let b = Integer::from_i64(-7);
    assert!(b.is_negative());
    assert_eq!(b.to_usize(), None);
    assert!(b.lt(&a));
    assert!(!a.lt(&b));
    assert!(a.eq(&Integer::from_u64(12345)));
    assert!(!a.eq(&Integer::from_u64(12344)));
    let zero = Integer::from_i64(0);
    assert!(!zero.is_negative());
    assert_eq!(zero.to_usize(), Some(0));
}

#[test]
fn integer_large_values() {
    let big = Integer::from_u64(u64::MAX);
    assert_eq!(big.to_usize(), Some(u64::MAX as usize));
    let min = Integer::from_i64(i64::MIN);
    assert!(min.is_negative());
    assert!(min.lt(&Integer::from_i64(i64::MIN + 1)));
}

#[test]
fn stray_bound_variable_is_reported() {
    let ty = Term::Var(sp(), 0, "x".to_owned());
    let bytes: [u8; 1] = [0];
    let mut pos: usize = 0;
    let r = parse(&no_items(), &ty, &bytes, &mut pos);
    assert!(matches!(r, Err(ParseError::UnexpectedBoundVar(_, 0))));
}
