//! Converts the core syntax back into the surface syntax, reversing the
//! parts of elaboration that have a surface form.
//!
//! Bound variables print under their binder labels, primitives and universes
//! under their names, and literals as literals. Core forms with no surface
//! syntax of their own — record types, record values, array values — come
//! back as error sentinels; they arise from parsing, not from elaboration,
//! so delaborating an elaborated module never meets them.

use vstd::prelude::*;

use crate::ast::{self, term_view, Endianness, Term, TypeConst, Universe};
use crate::span::Span;
use crate::surface;

verus! {

broadcast use vstd::seq::group_seq_axioms, vstd::std_specs::vec::group_vec_axioms;

/// The canonical spelling of a primitive format.
pub open spec fn spec_prim_name(tc: TypeConst) -> Seq<char> {
    match tc {
        TypeConst::U(n, e) => if n == 1 {
            "U8"@
        } else if n == 2 && e == Endianness::Little {
            "U16Le"@
        } else if n == 2 {
            "U16Be"@
        } else if n == 4 && e == Endianness::Little {
            "U32Le"@
        } else if n == 4 {
            "U32Be"@
        } else if e == Endianness::Little {
            "U64Le"@
        } else {
            "U64Be"@
        },
        TypeConst::S(n, e) => if n == 1 {
            "S8"@
        } else if n == 2 && e == Endianness::Little {
            "S16Le"@
        } else if n == 2 {
            "S16Be"@
        } else if n == 4 && e == Endianness::Little {
            "S32Le"@
        } else if n == 4 {
            "S32Be"@
        } else if e == Endianness::Little {
            "S64Le"@
        } else {
            "S64Be"@
        },
        TypeConst::F(n, e) => if n == 4 && e == Endianness::Little {
            "F32Le"@
        } else if n == 4 {
            "F32Be"@
        } else if e == Endianness::Little {
            "F64Le"@
        } else {
            "F64Be"@
        },
    }
}

/// The canonical spelling of a universe.
pub open spec fn spec_universe_name(u: Universe) -> Seq<char> {
    match u {
        Universe::Type => "Type"@,
        Universe::Format => "Format"@,
        Universe::Kind => "Kind"@,
    }
}

/// The intended correspondence between a core term and its delaborated
/// surface form: parentheses are transparent, and every core constructor
/// maps to the surface form that elaborates back to it, under its canonical
/// spelling.
pub open spec fn delab_rel(t: &Term, s: &surface::Term) -> bool
    decreases s,
{
    match s {
        surface::Term::Paren(_, inner) => delab_rel(t, inner),
        surface::Term::Name(_, n) => match t {
            Term::Item(_, m) => n@ == m@,
            Term::Var(_, _, label) => n@ == label@,
            Term::Universe(_, u) => n@ == spec_universe_name(*u),
            Term::Prim(_, tc) => n@ == spec_prim_name(*tc),
            Term::BoolType(_) => n@ == "Bool"@,
            Term::IntType(_) => n@ == "Int"@,
            Term::F32Type(_) => n@ == "F32"@,
            Term::F64Type(_) => n@ == "F64"@,
            Term::StringType(_) => n@ == "String"@,
            Term::BoolConst(_, b) => if *b {
                n@ == "true"@
            } else {
                n@ == "false"@
            },
            _ => false,
        },
        surface::Term::Ann(st, sty) => match t {
            Term::Ann(ct, cty) => delab_rel(ct, st) && delab_rel(cty, sty),
            _ => false,
        },
        surface::Term::NumberLiteral(_, sn) => match t {
            Term::IntConst(_, cn) => sn@ == cn@,
            _ => false,
        },
        surface::Term::FloatLiteral(_, bits) => match (t, bits) {
            (Term::F32Const(_, cb), surface::FloatBits::F32(sb)) => cb == sb,
            (Term::F64Const(_, cb), surface::FloatBits::F64(sb)) => cb == sb,
            _ => false,
        },
        surface::Term::StringLiteral(_, ss) => match t {
            Term::StringConst(_, cs) => ss@ == cs@,
            _ => false,
        },
        surface::Term::If(_, sc, sa, sb) => match t {
            Term::BoolElim(_, cc, ca, cb) => delab_rel(cc, sc) && delab_rel(ca, sa) && delab_rel(
                cb,
                sb,
            ),
            _ => false,
        },
        surface::Term::App(_, f, args) => match t {
            Term::ArrayType(_, cl, ce) => args@.len() == 2 && (&**f matches surface::Term::Name(
                _,
                n,
            ) && n@ == "Array"@) && delab_rel(cl, &args@[0]) && delab_rel(ce, &args@[1]),
            _ => false,
        },
        surface::Term::Where(_, sty, _, spred) => match t {
            Term::Constrained(_, cty, _, cpred) => delab_rel(cty, sty) && delab_rel(cpred, spred),
            _ => false,
        },
        surface::Term::Binop(_, sop, sa, sb) => match t {
            Term::Cmp(_, cop, ca, cb) => sop == cop && delab_rel(ca, sa) && delab_rel(cb, sb),
            _ => false,
        },
        surface::Term::Error(_) => match t {
            Term::Error(_) => true,
            Term::RecordTypeNil(_) => true,
            Term::RecordTypeCons(_, _, _, _) => true,
            Term::RecordIntroNil(_) => true,
            Term::RecordIntroCons(_, _, _, _) => true,
            Term::ArrayIntro(_, _) => true,
            _ => false,
        },
    }
}

/// The name under which a primitive format prints.
fn prim_name(tc: TypeConst) -> (r: String)
    ensures
        r@ == spec_prim_name(tc),
{
    match tc {
        TypeConst::U(n, e) => {
            if n == 1 {
                "U8".to_owned()
            } else if n == 2 && matches!(e, Endianness::Little) {
                "U16Le".to_owned()
            } else if n == 2 {
                "U16Be".to_owned()
            } else if n == 4 && matches!(e, Endianness::Little) {
                "U32Le".to_owned()
            } else if n == 4 {
                "U32Be".to_owned()
            } else if matches!(e, Endianness::Little) {
                "U64Le".to_owned()
            } else {
                "U64Be".to_owned()
            }
        },
        TypeConst::S(n, e) => {
            if n == 1 {
                "S8".to_owned()
            } else if n == 2 && matches!(e, Endianness::Little) {
                "S16Le".to_owned()
            } else if n == 2 {
                "S16Be".to_owned()
            } else if n == 4 && matches!(e, Endianness::Little) {
                "S32Le".to_owned()
            } else if n == 4 {
                "S32Be".to_owned()
            } else if matches!(e, Endianness::Little) {
                "S64Le".to_owned()
            } else {
                "S64Be".to_owned()
            }
        },
        TypeConst::F(n, e) => {
            if n == 4 && matches!(e, Endianness::Little) {
                "F32Le".to_owned()
            } else if n == 4 {
                "F32Be".to_owned()
            } else if matches!(e, Endianness::Little) {
                "F64Le".to_owned()
            } else {
                "F64Be".to_owned()
            }
        },
    }
}

/// The name under which a universe prints.
fn universe_name(u: Universe) -> (r: String)
    ensures
        r@ == spec_universe_name(u),
{
    match u {
        Universe::Type => "Type".to_owned(),
        Universe::Format => "Format".to_owned(),
        Universe::Kind => "Kind".to_owned(),
    }
}

/// Delaborates a core term at the outermost precedence level.
pub fn delaborate_term(term: &Term) -> (r: surface::Term)
    ensures
        delab_rel(term, &r),
        !(r matches surface::Term::Paren(_, _)),
        surface::spec_span(&r) == crate::ast::spec_term_span(term),
{
    delaborate_term_prec(term, 0)
}

/// Delaborates a core term; a term whose surface form does not bind tightly
/// is wrapped in parentheses when `prec` is positive.
pub fn delaborate_term_prec(term: &Term, prec: u8) -> (r: surface::Term)
    ensures
        delab_rel(term, &r),
        surface::spec_span(&r) == crate::ast::spec_term_span(term),
        (r matches surface::Term::Paren(_, _)) <==> (prec > 0 && (term matches Term::Ann(_, _)
            || term matches Term::Cmp(_, _, _, _) || term matches Term::BoolElim(_, _, _, _)
            || term matches Term::Constrained(_, _, _, _))),
    decreases term,
{
    let next: u8 = if prec < 255 {
        prec + 1
    } else {
        prec
    };
    match term {
        Term::Item(span, label) => surface::Term::Name(*span, label.clone()),
        Term::Var(span, _, label) => surface::Term::Name(*span, label.clone()),
        Term::Universe(span, u) => surface::Term::Name(*span, universe_name(*u)),
        Term::Prim(span, tc) => surface::Term::Name(*span, prim_name(*tc)),
        Term::BoolType(span) => surface::Term::Name(*span, "Bool".to_owned()),
        Term::IntType(span) => surface::Term::Name(*span, "Int".to_owned()),
        Term::F32Type(span) => surface::Term::Name(*span, "F32".to_owned()),
        Term::F64Type(span) => surface::Term::Name(*span, "F64".to_owned()),
        Term::StringType(span) => surface::Term::Name(*span, "String".to_owned()),
        Term::BoolConst(span, b) => {
            if *b {
                surface::Term::Name(*span, "true".to_owned())
            } else {
                surface::Term::Name(*span, "false".to_owned())
            }
        },
        Term::IntConst(span, n) => surface::Term::NumberLiteral(*span, n.clone()),
        Term::F32Const(span, b) => surface::Term::FloatLiteral(*span, surface::FloatBits::F32(*b)),
        Term::F64Const(span, b) => surface::Term::FloatLiteral(*span, surface::FloatBits::F64(*b)),
        Term::StringConst(span, s) => surface::Term::StringLiteral(*span, s.clone()),
        Term::Ann(t, ty) => {
            let inner = surface::Term::Ann(
                Box::new(delaborate_term_prec(t, next)),
                Box::new(delaborate_term_prec(ty, next)),
            );
            paren_at(prec, inner)
        },
        Term::Cmp(span, op, a, b) => {
            let inner = surface::Term::Binop(
                *span,
                *op,
                Box::new(delaborate_term_prec(a, next)),
                Box::new(delaborate_term_prec(b, next)),
            );
            paren_at(prec, inner)
        },
        Term::BoolElim(span, c, a, b) => {
            let inner = surface::Term::If(
                *span,
                Box::new(delaborate_term_prec(c, 0)),
                Box::new(delaborate_term_prec(a, 0)),
                Box::new(delaborate_term_prec(b, 0)),
            );
            paren_at(prec, inner)
        },
        Term::ArrayType(span, l, e) => {
            let mut args: Vec<surface::Term> = Vec::new();
            let dl = delaborate_term_prec(l, next);
            let de = delaborate_term_prec(e, next);
            args.push(dl);
            args.push(de);
            proof {
                assert(delab_rel(&**l, &args@[0]));
                assert(delab_rel(&**e, &args@[1]));
            }
            surface::Term::App(
                *span,
                Box::new(surface::Term::Name(*span, "Array".to_owned())),
                args,
            )
        },
        Term::Constrained(span, ty, label, pred) => {
            let inner = surface::Term::Where(
                *span,
                Box::new(delaborate_term_prec(ty, next)),
                (*span, label.clone()),
                Box::new(delaborate_term_prec(pred, 0)),
            );
            paren_at(prec, inner)
        },
        Term::RecordTypeNil(span) => surface::Term::Error(*span),
        Term::RecordTypeCons(span, _, _, _) => surface::Term::Error(*span),
        Term::RecordIntroNil(span) => surface::Term::Error(*span),
        Term::RecordIntroCons(span, _, _, _) => surface::Term::Error(*span),
        Term::ArrayIntro(span, _) => surface::Term::Error(*span),
        Term::Error(span) => surface::Term::Error(*span),
    }
}

/// Wraps a surface term in parentheses when the precedence asks for it.
fn paren_at(prec: u8, s: surface::Term) -> (r: surface::Term)
    ensures
        forall|t: &Term| delab_rel(t, &s) ==> delab_rel(t, &r),
        prec == 0 ==> r == s,
        prec > 0 ==> (r matches surface::Term::Paren(_, _)),
        surface::spec_span(&r) == surface::spec_span(&s),
{
    if prec > 0 {
        let span = s.span();
        surface::Term::Paren(span, Box::new(s))
    } else {
        s
    }
}

/// The intended correspondence between a core item and its delaborated
/// surface item: the kind is preserved, an annotated alias splits back into
/// the surface type slot and the body, and a struct keeps its fields in
/// order, each field keeping its doc, label, name span, and a corresponding
/// term.
pub open spec fn item_delab_rel(item: &ast::Item, r: &surface::Item) -> bool {
    match (item, r) {
        (ast::Item::Alias(a), surface::Item::Alias(sa)) => {
            &&& sa.doc.deep_view() == a.doc.deep_view()
            &&& sa.name.1@ == a.name@
            &&& match &a.term {
                Term::Ann(t, anno) => (&sa.ty matches Some(sty) && delab_rel(anno, sty))
                    && delab_rel(t, &sa.term),
                _ => sa.ty is None && delab_rel(&a.term, &sa.term),
            }
        },
        (ast::Item::Struct(st), surface::Item::Struct(ss)) => {
            &&& ss.doc.deep_view() == st.doc.deep_view()
            &&& ss.name.1@ == st.name@
            &&& ss.fields@.len() == st.fields@.len()
            &&& forall|j: int|
                0 <= j < st.fields@.len() ==> (#[trigger] ss.fields@[j]).doc.deep_view()
                    == st.fields@[j].doc.deep_view() && ss.fields@[j].name.1@
                    == st.fields@[j].name.1@ && ss.fields@[j].name.0 == st.fields@[j].name.0
                    && delab_rel(&st.fields@[j].term, &ss.fields@[j].term)
        },
        _ => false,
    }
}

/// Delaborates a core item, splitting an annotated alias back into its
/// annotation and body; names and doc lines are carried over verbatim, the
/// item kind is preserved, and every field comes back in place.
#[verifier::loop_isolation(false)]
pub fn delaborate_item(item: &ast::Item) -> (r: surface::Item)
    ensures
        surface::item_doc(&r) == crate::ast::spec_item_doc(item@),
        surface::item_name(&r) == crate::ast::spec_item_name(item@),
        item_delab_rel(item, &r),
{
    match item {
        ast::Item::Alias(alias) => {
            let (term, ty): (surface::Term, Option<surface::Term>) = match &alias.term {
                Term::Ann(t, anno) => (delaborate_term(t), Some(delaborate_term(anno))),
                other => (delaborate_term(other), None),
            };
            let doc = clone_doc(&alias.doc);
            surface::Item::Alias(
                surface::Alias {
                    span: alias.span,
                    doc,
                    name: (Span::initial(), alias.name.clone()),
                    ty,
                    term,
                },
            )
        },
        ast::Item::Struct(struct_ty) => {
            let mut fields: Vec<surface::TypeField> = Vec::new();
            let mut i: usize = 0;
            while i < struct_ty.fields.len()
                invariant
                    i <= struct_ty.fields@.len(),
                    fields@.len() == i,
                    forall|j: int|
                        0 <= j < i ==> (#[trigger] fields@[j]).doc.deep_view()
                            == struct_ty.fields@[j].doc.deep_view() && fields@[j].name.1@
                            == struct_ty.fields@[j].name.1@ && fields@[j].name.0
                            == struct_ty.fields@[j].name.0 && delab_rel(
                            &struct_ty.fields@[j].term,
                            &fields@[j].term,
                        ),
                decreases struct_ty.fields@.len() - i,
            {
                let f = &struct_ty.fields[i];
                fields.push(
                    surface::TypeField {
                        doc: clone_doc(&f.doc),
                        name: (f.name.0, f.name.1.clone()),
                        term: delaborate_term(&f.term),
                    },
                );
                i = i + 1;
            }
            let doc = clone_doc(&struct_ty.doc);
            surface::Item::Struct(
                surface::StructType {
                    span: struct_ty.span,
                    doc,
                    name: (Span::initial(), struct_ty.name.clone()),
                    fields,
                },
            )
        },
    }
}

/// Delaborates a whole core module: item by item, in order, each item
/// related to its source by `item_delab_rel`.
pub fn delaborate_module(module: &ast::Module) -> (r: surface::Module)
    ensures
        r.file_id == module.file_id,
        r.doc.deep_view() == module.doc.deep_view(),
        r.items@.len() == module.items@.len(),
        forall|i: int|
            0 <= i < module.items@.len() ==> surface::item_name(&(#[trigger] r.items@[i]))
                == crate::ast::spec_item_name(module.items@[i]@) && surface::item_doc(&r.items@[i])
                == crate::ast::spec_item_doc(module.items@[i]@),
        forall|i: int|
            0 <= i < module.items@.len() ==> item_delab_rel(
                &module.items@[i],
                &(#[trigger] r.items@[i]),
            ),
{
    let mut items: Vec<surface::Item> = Vec::new();
    let mut i: usize = 0;
    while i < module.items.len()
        invariant
            i <= module.items@.len(),
            items@.len() == i,
            forall|j: int|
                0 <= j < i ==> surface::item_name(&(#[trigger] items@[j])) == crate::ast::spec_item_name(
                    module.items@[j]@,
                ) && surface::item_doc(&items@[j]) == crate::ast::spec_item_doc(module.items@[j]@)
                    && item_delab_rel(&module.items@[j], &items@[j]),
        decreases module.items@.len() - i,
    {
        let it = delaborate_item(&module.items[i]);
        items.push(it);
        i = i + 1;
    }
    surface::Module { file_id: module.file_id, doc: clone_doc(&module.doc), items }
}

/// Clones a doc-comment block verbatim.
fn clone_doc(doc: &Vec<String>) -> (r: Vec<String>)
    ensures
        r.deep_view() == doc.deep_view(),
{
    let r = doc.clone();
    proof {
        assert(r.deep_view() =~= doc.deep_view());
    }
    r
}

} // verus!
