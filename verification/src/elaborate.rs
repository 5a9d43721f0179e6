//! The bidirectional elaborator.
//!
//! `check_term` elaborates a surface term against an expected core type in
//! normal form; `infer_term` elaborates and synthesises the type. Names
//! resolve first against the local binders, then against the module's items,
//! then against the built-ins; numeric literals default to `Int` and float
//! literals to the width the lexer decoded. Errors are collected, never
//! thrown: each erroring subterm becomes an error sentinel and elaboration
//! continues, so one input yields many diagnostics and always a complete core
//! tree. `elaborate_module` runs the items in declaration order, binding each
//! item's type and reduced definition for the items after it; it emits one
//! core item per surface item, with the name and doc lines carried over
//! verbatim.

use vstd::prelude::*;

use crate::ast::{
    error_free, items_view, shift, spec_item_doc, spec_item_name, term_view, CmpOp, Endianness,
    Item, Module, SpecItem, SpecTerm, StructType, Term, TypeConst, TypeField, Universe,
};
use crate::check::{rigid_seq, spec_ty_of};
use crate::semantics::{lookup_item, normalize, spec_normalize, EnvEntry, ItemEntry};
use crate::span::Span;
use crate::surface;

verus! {

broadcast use vstd::seq::group_seq_axioms, vstd::std_specs::vec::group_vec_axioms;

/// A diagnostic of the elaborator.
#[derive(Debug)]
pub enum ElabError {
    /// A name is bound neither by a binder, nor by an item, nor built in.
    UnboundName { span: Span, name: String },
    /// A term's type is not the expected type, up to definitional equality.
    /// Both sides are carried in normal form.
    TypeMismatch { span: Span, expected: Term, found: Term },
    /// A term standing where a format is needed does not live in a universe.
    ExpectedFormat { span: Span, found: Term },
    /// A term standing as a type annotation does not live in a universe.
    ExpectedType { span: Span, found: Term },
    /// A float literal overflowed its width.
    LiteralOutOfRange { span: Span },
    /// Two fields of one struct share a label.
    DuplicateField { label: String, first: Span, second: Span },
    /// Two items of one module share a name.
    DuplicateDefinition { name: String, first: Span, second: Span },
    /// An application whose head is not the `Array` primitive, or whose
    /// arity is wrong.
    InvalidApplication { span: Span },
    /// The universe `Kind` classifies `Type` and `Format` and has no type of
    /// its own.
    KindHasNoType { span: Span },
}

/// Model of an [`ElabError`]: names and carried terms become their models,
/// spans stay.
pub ghost enum SpecDiag {
    UnboundName { span: Span, name: Seq<char> },
    TypeMismatch { span: Span, expected: SpecTerm, found: SpecTerm },
    ExpectedFormat { span: Span, found: SpecTerm },
    ExpectedType { span: Span, found: SpecTerm },
    LiteralOutOfRange { span: Span },
    DuplicateField { label: Seq<char>, first: Span, second: Span },
    DuplicateDefinition { name: Seq<char>, first: Span, second: Span },
    InvalidApplication { span: Span },
    KindHasNoType { span: Span },
}

impl View for ElabError {
    type V = SpecDiag;

    open spec fn view(&self) -> SpecDiag {
        match self {
            ElabError::UnboundName { span, name } => SpecDiag::UnboundName {
                span: *span,
                name: name@,
            },
            ElabError::TypeMismatch { span, expected, found } => SpecDiag::TypeMismatch {
                span: *span,
                expected: term_view(expected),
                found: term_view(found),
            },
            ElabError::ExpectedFormat { span, found } => SpecDiag::ExpectedFormat {
                span: *span,
                found: term_view(found),
            },
            ElabError::ExpectedType { span, found } => SpecDiag::ExpectedType {
                span: *span,
                found: term_view(found),
            },
            ElabError::LiteralOutOfRange { span } => SpecDiag::LiteralOutOfRange { span: *span },
            ElabError::DuplicateField { label, first, second } => SpecDiag::DuplicateField {
                label: label@,
                first: *first,
                second: *second,
            },
            ElabError::DuplicateDefinition { name, first, second } => SpecDiag::DuplicateDefinition {
                name: name@,
                first: *first,
                second: *second,
            },
            ElabError::InvalidApplication { span } => SpecDiag::InvalidApplication { span: *span },
            ElabError::KindHasNoType { span } => SpecDiag::KindHasNoType { span: *span },
        }
    }
}

/// The models of a diagnostic list, in discovery order.
pub open spec fn diags_view(ds: Seq<ElabError>) -> Seq<SpecDiag> {
    Seq::new(
        ds.len(),
        |i: int|
            if 0 <= i < ds.len() {
                ds[i]@
            } else {
                SpecDiag::KindHasNoType { span: Span { start: 0, end: 0 } }
            },
    )
}

/// A local binder: its label and its (normal) type, which may mention the
/// binders before it.
#[derive(Debug)]
pub struct Local {
    pub label: String,
    pub ty: Term,
}

/// Model of a [`Local`].
pub ghost struct SpecLocal {
    pub label: Seq<char>,
    pub ty: SpecTerm,
}

impl View for Local {
    type V = SpecLocal;

    open spec fn view(&self) -> SpecLocal {
        SpecLocal { label: self.label@, ty: term_view(&self.ty) }
    }
}

/// The models of the local binders, outermost first.
pub open spec fn locals_view(ls: Seq<Local>) -> Seq<SpecLocal> {
    Seq::new(
        ls.len(),
        |i: int|
            if 0 <= i < ls.len() {
                ls[i]@
            } else {
                SpecLocal { label: Seq::empty(), ty: SpecTerm::Error }
            },
    )
}

/// Looks a name up among the model binders, innermost first, returning its
/// de Bruijn index.
pub open spec fn spec_lookup_local(ls: Seq<SpecLocal>, n: Seq<char>) -> Option<nat>
    decreases ls.len(),
{
    if ls.len() == 0 {
        None
    } else if ls[ls.len() - 1].label == n {
        Some(0)
    } else {
        match spec_lookup_local(ls.subrange(0, ls.len() - 1), n) {
            Some(j) => Some((j + 1) as nat),
            None => None,
        }
    }
}

/// Appends a diagnostic, keeping every earlier one in place.
fn push_diag(diags: &mut Vec<ElabError>, e: ElabError)
    ensures
        final(diags)@.len() == old(diags)@.len() + 1,
        final(diags)@[old(diags)@.len() as int] == e,
        forall|i: int|
            0 <= i < old(diags)@.len() ==> final(diags)@[i] == #[trigger] old(diags)@[i],
        diags_view(final(diags)@) == diags_view(old(diags)@).push(e@),
{
    let ghost pre = diags@;
    diags.push(e);
    proof {
        assert(diags_view(diags@) =~= diags_view(pre).push(e@));
    }
}

/// The types of the local binders, outermost first, as the core checker's
/// context.
pub open spec fn locals_tys(ls: Seq<Local>) -> Seq<SpecTerm> {
    Seq::new(
        ls.len(),
        |i: int|
            if 0 <= i < ls.len() {
                term_view(&ls[i].ty)
            } else {
                SpecTerm::Error
            },
    )
}

/// Every local binder's type is free of error sentinels.
pub open spec fn locals_checkable(ls: Seq<Local>) -> bool {
    forall|i: int| 0 <= i < ls.len() ==> error_free(term_view(&(#[trigger] ls[i]).ty))
}

/// Every item reachable by lookup has an error-free type and, for aliases,
/// an error-free definition.
pub open spec fn genv_checkable(g: Seq<crate::semantics::SpecItemEntry>) -> bool {
    forall|n: Seq<char>|
        match #[trigger] crate::semantics::spec_lookup_item(g, n) {
            Some(e) => error_free(e.ty) && match e.def {
                Some(d) => error_free(d),
                None => true,
            },
            None => true,
        }
}

/// The hypotheses under which elaboration is sound: the surrounding items
/// and binders are themselves free of error sentinels.
pub open spec fn ctx_checkable(g: Seq<crate::semantics::SpecItemEntry>, ls: Seq<Local>) -> bool {
    genv_checkable(g) && locals_checkable(ls)
}

/// A checkable item environment has error-free definitions.
pub proof fn lemma_genv_error_free(g: Seq<crate::semantics::SpecItemEntry>)
    requires
        genv_checkable(g),
    ensures
        crate::semantics::genv_error_free(g),
{
    assert forall|nm: Seq<char>|
        match #[trigger] crate::semantics::spec_lookup_item(g, nm) {
            Some(en) => match en.def {
                Some(d) => error_free(d),
                None => true,
            },
            None => true,
        } by {
        assert(match crate::semantics::spec_lookup_item(g, nm) {
            Some(e) => error_free(e.ty) && match e.def {
                Some(d) => error_free(d),
                None => true,
            },
            None => true,
        });
    }
}

/// Pushing an entry with error-free parts keeps the environment checkable.
pub proof fn lemma_genv_checkable_push(
    g: Seq<crate::semantics::SpecItemEntry>,
    e: crate::semantics::SpecItemEntry,
)
    requires
        genv_checkable(g),
        error_free(e.ty),
        match e.def {
            Some(d) => error_free(d),
            None => true,
        },
    ensures
        genv_checkable(g.push(e)),
{
    let g1 = g.push(e);
    assert forall|n: Seq<char>|
        match #[trigger] crate::semantics::spec_lookup_item(g1, n) {
            Some(en) => error_free(en.ty) && match en.def {
                Some(d) => error_free(d),
                None => true,
            },
            None => true,
        } by {
        assert(g1[g1.len() - 1] == e);
        if e.name != n {
            assert(g1.subrange(0, g1.len() - 1) =~= g);
            assert(match crate::semantics::spec_lookup_item(g, n) {
                Some(en) => error_free(en.ty) && match en.def {
                    Some(d) => error_free(d),
                    None => true,
                },
                None => true,
            });
        }
    }
}

/// Looks a name up among the local binders, innermost first, returning its
/// de Bruijn index.
#[verifier::loop_isolation(false)]
fn lookup_local(locals: &Vec<Local>, name: &String) -> (r: Option<usize>)
    ensures
        match r {
            Some(j) => j < locals@.len() && spec_lookup_local(locals_view(locals@), name@)
                == Some(j as nat),
            None => spec_lookup_local(locals_view(locals@), name@) is None,
        },
{
    let ghost lv = locals_view(locals@);
    let mut k: usize = locals.len();
    proof {
        assert(lv.subrange(0, lv.len() as int) =~= lv);
    }
    while k > 0
        invariant
            k <= locals@.len(),
            spec_lookup_local(lv, name@) == match spec_lookup_local(
                lv.subrange(0, k as int),
                name@,
            ) {
                Some(j) => Some((j + (lv.len() - k)) as nat),
                None => None::<nat>,
            },
        decreases k,
    {
        let ghost pre = lv.subrange(0, k as int);
        proof {
            assert(pre[pre.len() - 1] == lv[k - 1]);
            assert(lv[k - 1] == locals@[k - 1]@);
            assert(pre.subrange(0, pre.len() - 1) =~= lv.subrange(0, k - 1));
        }
        if crate::ast::string_eq(&locals[k - 1].label, name) {
            return Some(locals.len() - k);
        }
        k = k - 1;
    }
    proof {
        assert(lv.subrange(0, 0) =~= Seq::<SpecLocal>::empty());
    }
    None
}

/// An environment of `n` rigid binders, for normalising under binders.
pub fn rigid_env(n: usize) -> (r: Vec<EnvEntry>)
    ensures
        r@.len() == n,
        crate::semantics::env_view(r@) == rigid_seq(n as nat),
{
    let mut r: Vec<EnvEntry> = Vec::new();
    let mut i: usize = 0;
    while i < n
        invariant
            i <= n,
            r@.len() == i,
            forall|j: int| 0 <= j < i ==> r@[j] is Rigid,
        decreases n - i,
    {
        r.push(EnvEntry::Rigid);
        i = i + 1;
    }
    proof {
        assert(crate::semantics::env_view(r@) =~= rigid_seq(n as nat));
    }
    r
}

/// The built-in names, as models: primitive formats, host types, boolean
/// constants, and the universes `Type` and `Format`, each with its type.
pub open spec fn spec_builtin(n: Seq<char>) -> Option<(SpecTerm, SpecTerm)> {
    let fmt = SpecTerm::Universe(Universe::Format);
    let ty = SpecTerm::Universe(Universe::Type);
    if n == "U8"@ {
        Some((SpecTerm::Prim(TypeConst::U(1, Endianness::Little)), fmt))
    } else if n == "U16Le"@ {
        Some((SpecTerm::Prim(TypeConst::U(2, Endianness::Little)), fmt))
    } else if n == "U16Be"@ {
        Some((SpecTerm::Prim(TypeConst::U(2, Endianness::Big)), fmt))
    } else if n == "U32Le"@ {
        Some((SpecTerm::Prim(TypeConst::U(4, Endianness::Little)), fmt))
    } else if n == "U32Be"@ {
        Some((SpecTerm::Prim(TypeConst::U(4, Endianness::Big)), fmt))
    } else if n == "U64Le"@ {
        Some((SpecTerm::Prim(TypeConst::U(8, Endianness::Little)), fmt))
    } else if n == "U64Be"@ {
        Some((SpecTerm::Prim(TypeConst::U(8, Endianness::Big)), fmt))
    } else if n == "S8"@ {
        Some((SpecTerm::Prim(TypeConst::S(1, Endianness::Little)), fmt))
    } else if n == "S16Le"@ {
        Some((SpecTerm::Prim(TypeConst::S(2, Endianness::Little)), fmt))
    } else if n == "S16Be"@ {
        Some((SpecTerm::Prim(TypeConst::S(2, Endianness::Big)), fmt))
    } else if n == "S32Le"@ {
        Some((SpecTerm::Prim(TypeConst::S(4, Endianness::Little)), fmt))
    } else if n == "S32Be"@ {
        Some((SpecTerm::Prim(TypeConst::S(4, Endianness::Big)), fmt))
    } else if n == "S64Le"@ {
        Some((SpecTerm::Prim(TypeConst::S(8, Endianness::Little)), fmt))
    } else if n == "S64Be"@ {
        Some((SpecTerm::Prim(TypeConst::S(8, Endianness::Big)), fmt))
    } else if n == "F32Le"@ {
        Some((SpecTerm::Prim(TypeConst::F(4, Endianness::Little)), fmt))
    } else if n == "F32Be"@ {
        Some((SpecTerm::Prim(TypeConst::F(4, Endianness::Big)), fmt))
    } else if n == "F64Le"@ {
        Some((SpecTerm::Prim(TypeConst::F(8, Endianness::Little)), fmt))
    } else if n == "F64Be"@ {
        Some((SpecTerm::Prim(TypeConst::F(8, Endianness::Big)), fmt))
    } else if n == "Bool"@ {
        Some((SpecTerm::BoolType, ty))
    } else if n == "Int"@ {
        Some((SpecTerm::IntType, ty))
    } else if n == "F32"@ {
        Some((SpecTerm::F32Type, ty))
    } else if n == "F64"@ {
        Some((SpecTerm::F64Type, ty))
    } else if n == "String"@ {
        Some((SpecTerm::StringType, ty))
    } else if n == "true"@ {
        Some((SpecTerm::BoolConst(true), SpecTerm::BoolType))
    } else if n == "false"@ {
        Some((SpecTerm::BoolConst(false), SpecTerm::BoolType))
    } else if n == "Type"@ {
        Some((ty, SpecTerm::Universe(Universe::Kind)))
    } else if n == "Format"@ {
        Some((fmt, SpecTerm::Universe(Universe::Kind)))
    } else {
        None
    }
}

/// The built-in names: primitive formats, host types, boolean constants, and
/// the universes `Type` and `Format`. Returns the core term and its type.
fn builtin_of(span: Span, name: &String) -> (r: Option<(Term, Term)>)
    ensures
        match r {
            Some(p) => spec_builtin(name@) == Some((term_view(&p.0), term_view(&p.1)))
                && crate::ast::closed(term_view(&p.0)) && crate::ast::closed(term_view(&p.1))
                && error_free(term_view(&p.0)) && error_free(term_view(&p.1)) && forall|
                g: Seq<crate::semantics::SpecItemEntry>,
                l: Seq<SpecTerm>,
            |
                #[trigger] spec_ty_of(g, l, term_view(&p.0)) == Some(term_view(&p.1)),
            None => spec_builtin(name@) is None,
        },
{
    let fmt = Term::Universe(span, Universe::Format);
    let ty = Term::Universe(span, Universe::Type);
    if crate::ast::string_eq(name, &"U8".to_owned()) {
        Some((Term::Prim(span, TypeConst::U(1, Endianness::Little)), fmt))
    } else if crate::ast::string_eq(name, &"U16Le".to_owned()) {
        Some((Term::Prim(span, TypeConst::U(2, Endianness::Little)), fmt))
    } else if crate::ast::string_eq(name, &"U16Be".to_owned()) {
        Some((Term::Prim(span, TypeConst::U(2, Endianness::Big)), fmt))
    } else if crate::ast::string_eq(name, &"U32Le".to_owned()) {
        Some((Term::Prim(span, TypeConst::U(4, Endianness::Little)), fmt))
    } else if crate::ast::string_eq(name, &"U32Be".to_owned()) {
        Some((Term::Prim(span, TypeConst::U(4, Endianness::Big)), fmt))
    } else if crate::ast::string_eq(name, &"U64Le".to_owned()) {
        Some((Term::Prim(span, TypeConst::U(8, Endianness::Little)), fmt))
    } else if crate::ast::string_eq(name, &"U64Be".to_owned()) {
        Some((Term::Prim(span, TypeConst::U(8, Endianness::Big)), fmt))
    } else if crate::ast::string_eq(name, &"S8".to_owned()) {
        Some((Term::Prim(span, TypeConst::S(1, Endianness::Little)), fmt))
    } else if crate::ast::string_eq(name, &"S16Le".to_owned()) {
        Some((Term::Prim(span, TypeConst::S(2, Endianness::Little)), fmt))
    } else if crate::ast::string_eq(name, &"S16Be".to_owned()) {
        Some((Term::Prim(span, TypeConst::S(2, Endianness::Big)), fmt))
    } else if crate::ast::string_eq(name, &"S32Le".to_owned()) {
        Some((Term::Prim(span, TypeConst::S(4, Endianness::Little)), fmt))
    } else if crate::ast::string_eq(name, &"S32Be".to_owned()) {
        Some((Term::Prim(span, TypeConst::S(4, Endianness::Big)), fmt))
    } else if crate::ast::string_eq(name, &"S64Le".to_owned()) {
        Some((Term::Prim(span, TypeConst::S(8, Endianness::Little)), fmt))
    } else if crate::ast::string_eq(name, &"S64Be".to_owned()) {
        Some((Term::Prim(span, TypeConst::S(8, Endianness::Big)), fmt))
    } else if crate::ast::string_eq(name, &"F32Le".to_owned()) {
        Some((Term::Prim(span, TypeConst::F(4, Endianness::Little)), fmt))
    } else if crate::ast::string_eq(name, &"F32Be".to_owned()) {
        Some((Term::Prim(span, TypeConst::F(4, Endianness::Big)), fmt))
    } else if crate::ast::string_eq(name, &"F64Le".to_owned()) {
        Some((Term::Prim(span, TypeConst::F(8, Endianness::Little)), fmt))
    } else if crate::ast::string_eq(name, &"F64Be".to_owned()) {
        Some((Term::Prim(span, TypeConst::F(8, Endianness::Big)), fmt))
    } else if crate::ast::string_eq(name, &"Bool".to_owned()) {
        Some((Term::BoolType(span), ty))
    } else if crate::ast::string_eq(name, &"Int".to_owned()) {
        Some((Term::IntType(span), ty))
    } else if crate::ast::string_eq(name, &"F32".to_owned()) {
        Some((Term::F32Type(span), ty))
    } else if crate::ast::string_eq(name, &"F64".to_owned()) {
        Some((Term::F64Type(span), ty))
    } else if crate::ast::string_eq(name, &"String".to_owned()) {
        Some((Term::StringType(span), ty))
    } else if crate::ast::string_eq(name, &"true".to_owned()) {
        Some((Term::BoolConst(span, true), Term::BoolType(span)))
    } else if crate::ast::string_eq(name, &"false".to_owned()) {
        Some((Term::BoolConst(span, false), Term::BoolType(span)))
    } else if crate::ast::string_eq(name, &"Type".to_owned()) {
        Some((ty, Term::Universe(span, Universe::Kind)))
    } else if crate::ast::string_eq(name, &"Format".to_owned()) {
        Some((fmt, Term::Universe(span, Universe::Kind)))
    } else {
        None
    }
}

/// The host representation of a normal format: the type of a value parsed
/// from it. A constrained format parses to a value of its base format.
fn repr(span: Span, t: &Term) -> (r: Term)
    ensures
        term_view(&r) == crate::check::spec_repr(term_view(t)),
        (r matches Term::Error(_)) <==> term_view(&r) == SpecTerm::Error,
        !(r matches Term::Error(_)) ==> error_free(term_view(&r)),
    decreases t,
{
    match t {
        Term::Prim(_, TypeConst::U(_, _)) => Term::IntType(span),
        Term::Prim(_, TypeConst::S(_, _)) => Term::IntType(span),
        Term::Prim(_, TypeConst::F(n, _)) => {
            if *n == 4 {
                Term::F32Type(span)
            } else if *n == 8 {
                Term::F64Type(span)
            } else {
                Term::Error(span)
            }
        },
        Term::Constrained(_, base, _, _) => repr(span, base),
        _ => Term::Error(span),
    }
}

/// The bit pattern of an IEEE 754 32-bit infinity, of either sign.
pub open spec fn spec_f32_infinite(bits: u32) -> bool {
    bits & 0x7FFF_FFFF == 0x7F80_0000
}

/// The bit pattern of an IEEE 754 64-bit infinity, of either sign.
pub open spec fn spec_f64_infinite(bits: u64) -> bool {
    bits & 0x7FFF_FFFF_FFFF_FFFF == 0x7FF0_0000_0000_0000
}

fn f32_is_infinite(bits: u32) -> (r: bool)
    ensures
        r == spec_f32_infinite(bits),
{
    bits & 0x7FFF_FFFF == 0x7F80_0000
}

fn f64_is_infinite(bits: u64) -> (r: bool)
    ensures
        r == spec_f64_infinite(bits),
{
    bits & 0x7FFF_FFFF_FFFF_FFFF == 0x7FF0_0000_0000_0000
}

/// Whether a found type fits an expected type: definitional equality of
/// normal forms, with the error sentinel fitting anything so one mistake
/// yields one diagnostic.
fn compatible(found: &Term, expected: &Term) -> (r: bool)
    ensures
        r == (term_view(found) == term_view(expected) || term_view(found) == SpecTerm::Error
            || term_view(expected) == SpecTerm::Error),
{
    match found {
        Term::Error(_) => {
            return true;
        },
        _ => {},
    }
    match expected {
        Term::Error(_) => {
            return true;
        },
        _ => {},
    }
    found.alpha_eq(expected)
}


/// The specified elaboration of a surface term in inference mode: the core
/// term, its synthesised type in normal form, and the diagnostics emitted,
/// in discovery order. The executable `infer_term` is pinned to this
/// function.
pub open spec fn spec_infer(
    genv: Seq<crate::semantics::SpecItemEntry>,
    locals: Seq<SpecLocal>,
    t: &surface::Term,
) -> (SpecTerm, SpecTerm, Seq<SpecDiag>)
    decreases t, 0int,
{
    match t {
        surface::Term::Name(span, n) => match spec_lookup_local(locals, n@) {
            Some(j) => (
                SpecTerm::Var(j),
                crate::ast::spec_shift(locals[locals.len() - 1 - j].ty, j + 1, 0),
                Seq::empty(),
            ),
            None => match crate::semantics::spec_lookup_item(genv, n@) {
                Some(e) => (SpecTerm::Item(n@), e.ty, Seq::empty()),
                None => if n@ == "Kind"@ {
                    (
                        SpecTerm::Error,
                        SpecTerm::Error,
                        seq![SpecDiag::KindHasNoType { span: *span }],
                    )
                } else if n@ == "Array"@ {
                    (
                        SpecTerm::Error,
                        SpecTerm::Error,
                        seq![SpecDiag::InvalidApplication { span: *span }],
                    )
                } else {
                    match spec_builtin(n@) {
                        Some(p) => (p.0, p.1, Seq::empty()),
                        None => (
                            SpecTerm::Error,
                            SpecTerm::Error,
                            seq![SpecDiag::UnboundName { span: *span, name: n@ }],
                        ),
                    }
                },
            },
        },
        surface::Term::Paren(_, inner) => spec_infer(genv, locals, inner),
        surface::Term::Ann(e, sty) => {
            let (cty, u, d1) = spec_infer(genv, locals, sty);
            let is_universe = u matches SpecTerm::Universe(_) || u == SpecTerm::Error;
            let tau = if is_universe {
                spec_normalize(genv, rigid_seq(locals.len()), cty)
            } else {
                SpecTerm::Error
            };
            let d2 = if is_universe {
                d1
            } else {
                d1.push(SpecDiag::ExpectedType { span: surface::spec_span(sty), found: u })
            };
            let (ce, d3) = spec_check(genv, locals, e, tau);
            (SpecTerm::Ann(Box::new(ce), Box::new(cty)), tau, d2 + d3)
        },
        surface::Term::NumberLiteral(_, n) => (
            SpecTerm::IntConst(n@),
            SpecTerm::IntType,
            Seq::empty(),
        ),
        surface::Term::FloatLiteral(span, bits) => match bits {
            surface::FloatBits::F32(b) => if spec_f32_infinite(*b) {
                (
                    SpecTerm::Error,
                    SpecTerm::F32Type,
                    seq![SpecDiag::LiteralOutOfRange { span: *span }],
                )
            } else {
                (SpecTerm::F32Const(*b), SpecTerm::F32Type, Seq::empty())
            },
            surface::FloatBits::F64(b) => if spec_f64_infinite(*b) {
                (
                    SpecTerm::Error,
                    SpecTerm::F64Type,
                    seq![SpecDiag::LiteralOutOfRange { span: *span }],
                )
            } else {
                (SpecTerm::F64Const(*b), SpecTerm::F64Type, Seq::empty())
            },
        },
        surface::Term::StringLiteral(_, st) => (
            SpecTerm::StringConst(st@),
            SpecTerm::StringType,
            Seq::empty(),
        ),
        surface::Term::If(_, c, a, b) => {
            let (cc, d1) = spec_check(genv, locals, c, SpecTerm::BoolType);
            let (ca, tau, d2) = spec_infer(genv, locals, a);
            let (cb, d3) = spec_check(genv, locals, b, tau);
            (
                SpecTerm::BoolElim(Box::new(cc), Box::new(ca), Box::new(cb)),
                tau,
                d1 + d2 + d3,
            )
        },
        surface::Term::App(span, f, args) => {
            let is_array = (&**f matches surface::Term::Name(_, n) && n@ == "Array"@
                && spec_lookup_local(locals, n@) is None && crate::semantics::spec_lookup_item(
                genv,
                n@,
            ) is None);
            if is_array && args@.len() == 2 {
                let (cl, d1) = spec_check(genv, locals, &args@[0], SpecTerm::IntType);
                let (ce, d2) = spec_check(
                    genv,
                    locals,
                    &args@[1],
                    SpecTerm::Universe(Universe::Format),
                );
                (
                    SpecTerm::ArrayType(Box::new(cl), Box::new(ce)),
                    SpecTerm::Universe(Universe::Format),
                    d1 + d2,
                )
            } else {
                (
                    SpecTerm::Error,
                    SpecTerm::Error,
                    seq![SpecDiag::InvalidApplication { span: *span }],
                )
            }
        },
        surface::Term::Where(_, sty, binder, pred) => {
            let (cty, u, d1) = spec_infer(genv, locals, sty);
            let format_ok = u == SpecTerm::Universe(Universe::Format) || u == SpecTerm::Error;
            let d2 = if format_ok {
                d1
            } else {
                d1.push(SpecDiag::ExpectedFormat { span: surface::spec_span(sty), found: u })
            };
            let nty = spec_normalize(genv, rigid_seq(locals.len()), cty);
            let host = crate::check::spec_repr(nty);
            let d3 = if u == SpecTerm::Universe(Universe::Format) && host == SpecTerm::Error {
                d2.push(SpecDiag::ExpectedFormat { span: surface::spec_span(sty), found: nty })
            } else {
                d2
            };
            let inner = locals.push(SpecLocal { label: binder.1@, ty: host });
            let (cpred, d4) = spec_check(genv, inner, pred, SpecTerm::BoolType);
            (
                SpecTerm::Constrained(Box::new(cty), Box::new(cpred)),
                SpecTerm::Universe(Universe::Format),
                d3 + d4,
            )
        },
        surface::Term::Binop(_, op, a, b) => {
            let (ca, d1) = spec_check(genv, locals, a, SpecTerm::IntType);
            let (cb, d2) = spec_check(genv, locals, b, SpecTerm::IntType);
            (
                SpecTerm::Cmp(*op, Box::new(ca), Box::new(cb)),
                SpecTerm::BoolType,
                d1 + d2,
            )
        },
        surface::Term::Error(_) => (SpecTerm::Error, SpecTerm::Error, Seq::empty()),
    }
}

/// The specified elaboration of a surface term against an expected normal
/// type: the core term and the diagnostics emitted. The executable
/// `check_term` is pinned to this function.
pub open spec fn spec_check(
    genv: Seq<crate::semantics::SpecItemEntry>,
    locals: Seq<SpecLocal>,
    t: &surface::Term,
    expected: SpecTerm,
) -> (SpecTerm, Seq<SpecDiag>)
    decreases t, 2int,
{
    match t {
        surface::Term::Paren(_, inner) => spec_check(genv, locals, inner, expected),
        surface::Term::If(_, c, a, b) => {
            let (cc, d1) = spec_check(genv, locals, c, SpecTerm::BoolType);
            let (ca, d2) = spec_check(genv, locals, a, expected);
            let (cb, d3) = spec_check(genv, locals, b, expected);
            (SpecTerm::BoolElim(Box::new(cc), Box::new(ca), Box::new(cb)), d1 + d2 + d3)
        },
        surface::Term::NumberLiteral(_, n) => match expected {
            SpecTerm::IntType => (SpecTerm::IntConst(n@), Seq::empty()),
            _ => spec_check_fallback(genv, locals, t, expected),
        },
        surface::Term::FloatLiteral(span, bits) => match (bits, expected) {
            (surface::FloatBits::F32(b), SpecTerm::F32Type) => if spec_f32_infinite(*b) {
                (SpecTerm::Error, seq![SpecDiag::LiteralOutOfRange { span: *span }])
            } else {
                (SpecTerm::F32Const(*b), Seq::empty())
            },
            (surface::FloatBits::F64(b), SpecTerm::F64Type) => if spec_f64_infinite(*b) {
                (SpecTerm::Error, seq![SpecDiag::LiteralOutOfRange { span: *span }])
            } else {
                (SpecTerm::F64Const(*b), Seq::empty())
            },
            _ => spec_check_fallback(genv, locals, t, expected),
        },
        surface::Term::Error(_) => (SpecTerm::Error, Seq::empty()),
        _ => spec_check_fallback(genv, locals, t, expected),
    }
}

/// The checking fallback, as a model: infer and compare up to definitional
/// equality, with the error sentinel fitting anything.
pub open spec fn spec_check_fallback(
    genv: Seq<crate::semantics::SpecItemEntry>,
    locals: Seq<SpecLocal>,
    t: &surface::Term,
    expected: SpecTerm,
) -> (SpecTerm, Seq<SpecDiag>)
    decreases t, 1int,
{
    let (c, tau, d1) = spec_infer(genv, locals, t);
    if tau == expected || tau == SpecTerm::Error || expected == SpecTerm::Error {
        (c, d1)
    } else {
        (
            SpecTerm::Error,
            d1.push(
                SpecDiag::TypeMismatch { span: surface::spec_span(t), expected, found: tau },
            ),
        )
    }
}

/// Elaborates `t` and synthesises its type, which is returned in normal
/// form. On an error a diagnostic is pushed and the error sentinel returned.
///
/// Elaboration is sound: when no diagnostic is pushed and the surrounding
/// items and binders are free of error sentinels, the elaborated term
/// synthesises exactly the returned type under the core checker, and both
/// are free of error sentinels themselves.
#[verifier::loop_isolation(false)]
#[verifier::rlimit(100)]
pub fn infer_term(
    genv: &Vec<ItemEntry>,
    locals: &Vec<Local>,
    t: &surface::Term,
    diags: &mut Vec<ElabError>,
) -> (r: (Term, Term))
    ensures
        old(diags)@.len() <= final(diags)@.len(),
        forall|i: int|
            0 <= i < old(diags)@.len() ==> final(diags)@[i] == #[trigger] old(diags)@[i],
        term_view(&r.0) == spec_infer(
            crate::semantics::genv_view(genv@),
            locals_view(locals@),
            t,
        ).0,
        term_view(&r.1) == spec_infer(
            crate::semantics::genv_view(genv@),
            locals_view(locals@),
            t,
        ).1,
        diags_view(final(diags)@) == diags_view(old(diags)@) + spec_infer(
            crate::semantics::genv_view(genv@),
            locals_view(locals@),
            t,
        ).2,
        ({
            &&& final(diags)@.len() == old(diags)@.len()
            &&& ctx_checkable(crate::semantics::genv_view(genv@), locals@)
            &&& surface::term_error_free(t)
        }) ==> ({
            &&& spec_ty_of(
                crate::semantics::genv_view(genv@),
                locals_tys(locals@),
                term_view(&r.0),
            ) == Some(term_view(&r.1))
            &&& error_free(term_view(&r.0))
            &&& error_free(term_view(&r.1))
        }),
    decreases t, 0int,
{
    let ghost gv = crate::semantics::genv_view(genv@);
    let ghost lv = locals_view(locals@);
    let ghost dv0 = diags_view(old(diags)@);
    match t {
        surface::Term::Name(span, n) => {
            match lookup_local(locals, n) {
                Some(j) => {
                    let slot: usize = locals.len() - 1 - j;
                    let ty = shift(&locals[slot].ty, j + 1, 0);
                    proof {
                        assert(locals_tys(locals@)[slot as int] == term_view(
                            &locals@[slot as int].ty,
                        ));
                        if error_free(term_view(&locals@[slot as int].ty)) {
                            crate::ast::lemma_shift_error_free(
                                term_view(&locals@[slot as int].ty),
                                (j + 1) as nat,
                                0,
                            );
                        }
                    }
                    {
                        let rv = Term::Var(*span, j, n.clone());
                        proof {
                            assert(lv[locals@.len() - 1 - j].ty == term_view(
                                &locals@[locals@.len() - 1 - j].ty,
                            ));
                            assert(diags_view(diags@) =~= dv0 + Seq::<SpecDiag>::empty());
                            let g = crate::semantics::genv_view(genv@);
                            if diags@.len() == old(diags)@.len() && ctx_checkable(g, locals@)
                                && surface::term_error_free(t) {
                                assert(spec_ty_of(g, locals_tys(locals@), term_view(&rv)) == Some(
                                term_view(&ty),
                                ));
                                assert(error_free(term_view(&rv)));
                                assert(error_free(term_view(&ty)));
                            }
                        }
                        (rv, ty)
                    }
                },
                None => {
                    match lookup_item(genv, n) {
                        Some(e) => {
                            let ty = e.ty.clone();
                            proof {
                                assert(diags_view(diags@) =~= dv0 + Seq::<SpecDiag>::empty());
                            }
                            (Term::Item(*span, n.clone()), ty)
                        },
                        None => {
                            if crate::ast::string_eq(n, &"Kind".to_owned()) {
                                push_diag(diags, ElabError::KindHasNoType { span: *span });
                                proof {
                                    assert(diags_view(diags@) =~= dv0 + seq![
                                        SpecDiag::KindHasNoType { span: *span },
                                    ]);
                                }
                                (Term::Error(*span), Term::Error(*span))
                            } else if crate::ast::string_eq(n, &"Array".to_owned()) {
                                push_diag(diags, ElabError::InvalidApplication { span: *span });
                                proof {
                                    assert(diags_view(diags@) =~= dv0 + seq![
                                        SpecDiag::InvalidApplication { span: *span },
                                    ]);
                                }
                                (Term::Error(*span), Term::Error(*span))
                            } else {
                                match builtin_of(*span, n) {
                                    Some(p) => {
                                        proof {
                                            assert(diags_view(diags@) =~= dv0
                                                + Seq::<SpecDiag>::empty());
                                        }
                                        p
                                    },
                                    None => {
                                        push_diag(diags, ElabError::UnboundName { span: *span, name: n.clone(), });
                                        proof {
                                            assert(diags_view(diags@) =~= dv0 + seq![
                                                SpecDiag::UnboundName {
                                                    span: *span,
                                                    name: n@,
                                                },
                                            ]);
                                        }
                                        (Term::Error(*span), Term::Error(*span))
                                    },
                                }
                            }
                        },
                    }
                },
            }
        },
        surface::Term::Paren(_, inner) => infer_term(genv, locals, inner, diags),
        surface::Term::Ann(e, sty) => {
            let (cty, u) = infer_term(genv, locals, sty, diags);
            let is_universe: bool = match &u {
                Term::Universe(_, _) => true,
                Term::Error(_) => true,
                _ => false,
            };
            let tau: Term;
            if is_universe {
                let mut renv = rigid_env(locals.len());
                tau = normalize(genv, &mut renv, &cty);
                proof {
                    let g = crate::semantics::genv_view(genv@);
                    if error_free(term_view(&cty)) && genv_checkable(g) {
                        lemma_genv_error_free(g);
                        assert(crate::semantics::env_error_free(rigid_seq(locals@.len() as nat)));
                        crate::semantics::lemma_normalize_error_free(
                            g,
                            rigid_seq(locals@.len() as nat),
                            term_view(&cty),
                        );
                    }
                }
            } else {
                push_diag(diags, ElabError::ExpectedType { span: sty.span(), found: u });
                tau = Term::Error(sty.span());
            }
            let ce = check_term(genv, locals, e, &tau, diags);
            let rv = Term::Ann(Box::new(ce), Box::new(cty));
            proof {
                let si = spec_infer(gv, lv, sty);
                let d2 = if term_view(&u) matches SpecTerm::Universe(_) || term_view(&u)
                    == SpecTerm::Error {
                    si.2
                } else {
                    si.2.push(
                        SpecDiag::ExpectedType { span: surface::spec_span(sty), found: term_view(&u) },
                    )
                };
                let sc = spec_check(gv, lv, e, term_view(&tau));
                if is_universe {
                } else {
                    assert((dv0 + si.2).push(
                        SpecDiag::ExpectedType {
                            span: surface::spec_span(sty),
                            found: term_view(&u),
                        },
                    ) =~= dv0 + d2);
                }
                assert(diags_view(diags@) =~= dv0 + (d2 + sc.1));
            }
            proof {
                let g = crate::semantics::genv_view(genv@);
                if diags@.len() == old(diags)@.len() && ctx_checkable(g, locals@)
                    && surface::term_error_free(t) {
                    assert(spec_ty_of(g, locals_tys(locals@), term_view(&rv)) == Some(term_view(
                        &tau,
                    )));
                    assert(error_free(term_view(&rv)));
                    assert(error_free(term_view(&tau)));
                }
            }
            (rv, tau)
        },
        surface::Term::NumberLiteral(span, n) => {
            proof {
                assert(diags_view(diags@) =~= dv0 + Seq::<SpecDiag>::empty());
            }
            (Term::IntConst(*span, n.clone()), Term::IntType(*span))
        },
        surface::Term::FloatLiteral(span, bits) => {
            match bits {
                surface::FloatBits::F32(b) => {
                    if f32_is_infinite(*b) {
                        push_diag(diags, ElabError::LiteralOutOfRange { span: *span });
                        proof {
                            assert(diags_view(diags@) =~= dv0 + seq![
                                SpecDiag::LiteralOutOfRange { span: *span },
                            ]);
                        }
                        (Term::Error(*span), Term::F32Type(*span))
                    } else {
                        proof {
                            assert(diags_view(diags@) =~= dv0 + Seq::<SpecDiag>::empty());
                        }
                        (Term::F32Const(*span, *b), Term::F32Type(*span))
                    }
                },
                surface::FloatBits::F64(b) => {
                    if f64_is_infinite(*b) {
                        push_diag(diags, ElabError::LiteralOutOfRange { span: *span });
                        proof {
                            assert(diags_view(diags@) =~= dv0 + seq![
                                SpecDiag::LiteralOutOfRange { span: *span },
                            ]);
                        }
                        (Term::Error(*span), Term::F64Type(*span))
                    } else {
                        proof {
                            assert(diags_view(diags@) =~= dv0 + Seq::<SpecDiag>::empty());
                        }
                        (Term::F64Const(*span, *b), Term::F64Type(*span))
                    }
                },
            }
        },
        surface::Term::StringLiteral(span, s) => {
            proof {
                assert(diags_view(diags@) =~= dv0 + Seq::<SpecDiag>::empty());
            }
            (Term::StringConst(*span, s.clone()), Term::StringType(*span))
        },
        surface::Term::If(span, c, a, b) => {
            let cc = check_term(genv, locals, c, &Term::BoolType(*span), diags);
            let (ca, tau) = infer_term(genv, locals, a, diags);
            let cb = check_term(genv, locals, b, &tau, diags);
            let rv = Term::BoolElim(*span, Box::new(cc), Box::new(ca), Box::new(cb));
            proof {
                let d1 = spec_check(gv, lv, c, SpecTerm::BoolType).1;
                let d2 = spec_infer(gv, lv, a).2;
                let d3 = spec_check(gv, lv, b, term_view(&tau)).1;
                assert(diags_view(diags@) =~= dv0 + (d1 + d2 + d3));
            }
            proof {
                let g = crate::semantics::genv_view(genv@);
                if diags@.len() == old(diags)@.len() && ctx_checkable(g, locals@)
                    && surface::term_error_free(t) {
                    assert(spec_ty_of(g, locals_tys(locals@), term_view(&rv)) == Some(term_view(
                        &tau,
                    )));
                    assert(error_free(term_view(&rv)));
                    assert(error_free(term_view(&tau)));
                }
            }
            (rv, tau)
        },
        surface::Term::App(span, f, args) => {
            let is_array: bool = match &**f {
                surface::Term::Name(_, n) => crate::ast::string_eq(n, &"Array".to_owned())
                    && lookup_local(locals, n).is_none() && lookup_item(genv, n).is_none(),
                _ => false,
            };
            if is_array && args.len() == 2 {
                proof {
                    assert(decreases_to!(*args => args@));
                    assert(decreases_to!(args@ => args@[0]));
                    assert(decreases_to!(args@ => args@[1]));
                    if surface::args_error_free(args@) {
                        assert(surface::term_error_free(&args@[0]));
                        let rest = args@.subrange(1, 2);
                        assert(surface::args_error_free(rest));
                        assert(rest.len() == 1);
                        assert(surface::term_error_free(&rest[0]));
                        assert(rest[0] == args@[1]);
                        assert(surface::term_error_free(&args@[1]));
                    }
                }
                let cl = check_term(genv, locals, &args[0], &Term::IntType(*span), diags);
                let ce = check_term(
                    genv,
                    locals,
                    &args[1],
                    &Term::Universe(*span, Universe::Format),
                    diags,
                );
                {
                    let rv = Term::ArrayType(*span, Box::new(cl), Box::new(ce));
                    let rt = Term::Universe(*span, Universe::Format);
                    proof {
                        let d1 = spec_check(gv, lv, &args@[0], SpecTerm::IntType).1;
                        let d2 = spec_check(
                            gv,
                            lv,
                            &args@[1],
                            SpecTerm::Universe(Universe::Format),
                        ).1;
                        assert(diags_view(diags@) =~= dv0 + (d1 + d2));
                    }
                    proof {
                        let g = crate::semantics::genv_view(genv@);
                        if diags@.len() == old(diags)@.len() && ctx_checkable(g, locals@)
                            && surface::term_error_free(t) {
                            assert(spec_ty_of(g, locals_tys(locals@), term_view(&rv)) == Some(term_view(
                        &rt,
                            )));
                            assert(error_free(term_view(&rv)));
                            assert(error_free(term_view(&rt)));
                        }
                    }
                    (rv, rt)
                }
            } else {
                push_diag(diags, ElabError::InvalidApplication { span: *span });
                proof {
                    assert(diags_view(diags@) =~= dv0 + seq![
                        SpecDiag::InvalidApplication { span: *span },
                    ]);
                }
                (Term::Error(*span), Term::Error(*span))
            }
        },
        surface::Term::Where(span, sty, binder, pred) => {
            let (cty, u) = infer_term(genv, locals, sty, diags);
            let format_ok: bool = match &u {
                Term::Universe(_, Universe::Format) => true,
                Term::Error(_) => true,
                _ => false,
            };
            let is_format: bool = matches!(&u, Term::Universe(_, Universe::Format));
            if !format_ok {
                push_diag(&mut *diags, ElabError::ExpectedFormat { span: sty.span(), found: u });
            }
            let mut renv = rigid_env(locals.len());
            let nty = normalize(genv, &mut renv, &cty);
            let host = repr(binder.0, &nty);
            if is_format && matches!(&host, Term::Error(_)) {
                push_diag(
                    &mut *diags,
                    ElabError::ExpectedFormat { span: sty.span(), found: nty },
                );
            }
            let mut inner: Vec<Local> = Vec::new();
            let ghost dsnap = diags@;
            let mut k: usize = 0;
            while k < locals.len()
                invariant
                    k <= locals@.len(),
                    inner@.len() == k,
                    diags@ == dsnap,
                    forall|j: int| 0 <= j < k ==> (#[trigger] inner@[j])@ == locals@[j]@,
                decreases locals@.len() - k,
            {
                inner.push(Local { label: locals[k].label.clone(), ty: locals[k].ty.clone() });
                k = k + 1;
            }
            inner.push(Local { label: binder.1.clone(), ty: host });
            proof {
                assert(locals_tys(inner@) =~= locals_tys(locals@).push(
                    term_view(&inner@[inner@.len() - 1].ty),
                ));
                assert(locals_view(inner@) =~= lv.push(
                    SpecLocal { label: binder.1@, ty: term_view(&host) },
                ));
                if locals_checkable(locals@) && error_free(
                    term_view(&inner@[inner@.len() - 1].ty),
                ) {
                    assert forall|j: int|
                        0 <= j < inner@.len() implies error_free(
                        term_view(&(#[trigger] inner@[j]).ty),
                    ) by {
                        if j < locals@.len() {
                            assert(error_free(term_view(&locals@[j].ty)));
                        }
                    }
                }
            }
            let cpred = check_term(genv, &inner, pred, &Term::BoolType(*span), diags);
            let rv = Term::Constrained(*span, Box::new(cty), binder.1.clone(), Box::new(cpred));
            let rt = Term::Universe(*span, Universe::Format);
            proof {
                let si = spec_infer(gv, lv, sty);
                let u_fmt = term_view(&u) == SpecTerm::Universe(Universe::Format);
                let sd2 = if u_fmt || term_view(&u) == SpecTerm::Error {
                    si.2
                } else {
                    si.2.push(
                        SpecDiag::ExpectedFormat {
                            span: surface::spec_span(sty),
                            found: term_view(&u),
                        },
                    )
                };
                let sd3 = if u_fmt && term_view(&host) == SpecTerm::Error {
                    sd2.push(
                        SpecDiag::ExpectedFormat {
                            span: surface::spec_span(sty),
                            found: term_view(&nty),
                        },
                    )
                } else {
                    sd2
                };
                let sinner = lv.push(SpecLocal { label: binder.1@, ty: term_view(&host) });
                let sd4 = spec_check(gv, sinner, pred, SpecTerm::BoolType).1;
                if !format_ok {
                    assert((dv0 + si.2).push(
                        SpecDiag::ExpectedFormat {
                            span: surface::spec_span(sty),
                            found: term_view(&u),
                        },
                    ) =~= dv0 + sd2);
                }
                if is_format && term_view(&host) == SpecTerm::Error {
                    assert((dv0 + sd2).push(
                        SpecDiag::ExpectedFormat {
                            span: surface::spec_span(sty),
                            found: term_view(&nty),
                        },
                    ) =~= dv0 + sd3);
                }
                assert(diags_view(diags@) =~= dv0 + (sd3 + sd4));
            }
            proof {
                let g = crate::semantics::genv_view(genv@);
                if diags@.len() == old(diags)@.len() && ctx_checkable(g, locals@)
                    && surface::term_error_free(t) {
                    assert(error_free(term_view(&u)));
                    assert(term_view(&u) == SpecTerm::Universe(Universe::Format));
                    assert(spec_ty_of(g, locals_tys(locals@), term_view(&cty)) == Some(
                        SpecTerm::Universe(Universe::Format),
                    ));
                    assert(!(inner@[inner@.len() - 1].ty matches Term::Error(_)));
                    assert(error_free(term_view(&inner@[inner@.len() - 1].ty)));
                    assert(locals_checkable(inner@));
                    assert(ctx_checkable(g, inner@));
                    assert(spec_ty_of(g, locals_tys(inner@), term_view(&cpred)) == Some(
                        SpecTerm::BoolType,
                    ));
                    assert(term_view(&inner@[inner@.len() - 1].ty) == crate::check::spec_repr(
                        crate::semantics::spec_normalize(
                            g,
                            rigid_seq(locals@.len() as nat),
                            term_view(&cty),
                        ),
                    ));
                    assert(spec_ty_of(g, locals_tys(locals@), term_view(&rv)) == Some(term_view(
                        &rt,
                    )));
                    assert(error_free(term_view(&rv)));
                    assert(error_free(term_view(&rt)));
                }
            }
            (rv, rt)
        },
        surface::Term::Binop(span, op, a, b) => {
            let ca = check_term(genv, locals, a, &Term::IntType(*span), diags);
            let cb = check_term(genv, locals, b, &Term::IntType(*span), diags);
            let rv = Term::Cmp(*span, *op, Box::new(ca), Box::new(cb));
            let rt = Term::BoolType(*span);
            proof {
                let d1 = spec_check(gv, lv, a, SpecTerm::IntType).1;
                let d2 = spec_check(gv, lv, b, SpecTerm::IntType).1;
                assert(diags_view(diags@) =~= dv0 + (d1 + d2));
            }
            proof {
                let g = crate::semantics::genv_view(genv@);
                if diags@.len() == old(diags)@.len() && ctx_checkable(g, locals@)
                    && surface::term_error_free(t) {
                    assert(spec_ty_of(g, locals_tys(locals@), term_view(&rv)) == Some(term_view(
                        &rt,
                    )));
                    assert(error_free(term_view(&rv)));
                    assert(error_free(term_view(&rt)));
                }
            }
            (rv, rt)
        },
        surface::Term::Error(span) => {
            proof {
                assert(diags_view(diags@) =~= dv0 + Seq::<SpecDiag>::empty());
            }
            (Term::Error(*span), Term::Error(*span))
        },
    }
}

/// Elaborates `t` against the expected type `expected`, which must be in
/// normal form. A term whose inferred type is not definitionally equal to
/// the expectation becomes an error sentinel, with a mismatch diagnostic
/// carrying both normal forms.
///
/// Checking is sound: when no diagnostic is pushed and the context and the
/// expectation are free of error sentinels, the elaborated term synthesises
/// exactly the expected type under the core checker.
pub fn check_term(
    genv: &Vec<ItemEntry>,
    locals: &Vec<Local>,
    t: &surface::Term,
    expected: &Term,
    diags: &mut Vec<ElabError>,
) -> (r: Term)
    ensures
        old(diags)@.len() <= final(diags)@.len(),
        forall|i: int|
            0 <= i < old(diags)@.len() ==> final(diags)@[i] == #[trigger] old(diags)@[i],
        term_view(&r) == spec_check(
            crate::semantics::genv_view(genv@),
            locals_view(locals@),
            t,
            term_view(expected),
        ).0,
        diags_view(final(diags)@) == diags_view(old(diags)@) + spec_check(
            crate::semantics::genv_view(genv@),
            locals_view(locals@),
            t,
            term_view(expected),
        ).1,
        ({
            &&& final(diags)@.len() == old(diags)@.len()
            &&& ctx_checkable(crate::semantics::genv_view(genv@), locals@)
            &&& surface::term_error_free(t)
            &&& error_free(term_view(expected))
        }) ==> ({
            &&& spec_ty_of(
                crate::semantics::genv_view(genv@),
                locals_tys(locals@),
                term_view(&r),
            ) == Some(term_view(expected))
            &&& error_free(term_view(&r))
        }),
    decreases t, 2int,
{
    let ghost gv = crate::semantics::genv_view(genv@);
    let ghost lv = locals_view(locals@);
    let ghost dv0 = diags_view(old(diags)@);
    match t {
        surface::Term::Paren(_, inner) => check_term(genv, locals, inner, expected, diags),
        surface::Term::If(span, c, a, b) => {
            let cc = check_term(genv, locals, c, &Term::BoolType(*span), diags);
            let ca = check_term(genv, locals, a, expected, diags);
            let cb = check_term(genv, locals, b, expected, diags);
            Term::BoolElim(*span, Box::new(cc), Box::new(ca), Box::new(cb))
        },
        surface::Term::NumberLiteral(span, n) => {
            match expected {
                Term::IntType(_) => Term::IntConst(*span, n.clone()),
                _ => check_by_inference(genv, locals, t, expected, diags),
            }
        },
        surface::Term::FloatLiteral(span, bits) => {
            match (bits, expected) {
                (surface::FloatBits::F32(b), Term::F32Type(_)) => {
                    if f32_is_infinite(*b) {
                        push_diag(diags, ElabError::LiteralOutOfRange { span: *span });
                        Term::Error(*span)
                    } else {
                        Term::F32Const(*span, *b)
                    }
                },
                (surface::FloatBits::F64(b), Term::F64Type(_)) => {
                    if f64_is_infinite(*b) {
                        push_diag(diags, ElabError::LiteralOutOfRange { span: *span });
                        Term::Error(*span)
                    } else {
                        Term::F64Const(*span, *b)
                    }
                },
                _ => check_by_inference(genv, locals, t, expected, diags),
            }
        },
        surface::Term::Error(span) => Term::Error(*span),
        _ => check_by_inference(genv, locals, t, expected, diags),
    }
}

/// The checking fallback: infer a type and compare it with the expectation
/// up to definitional equality.
fn check_by_inference(
    genv: &Vec<ItemEntry>,
    locals: &Vec<Local>,
    t: &surface::Term,
    expected: &Term,
    diags: &mut Vec<ElabError>,
) -> (r: Term)
    ensures
        old(diags)@.len() <= final(diags)@.len(),
        forall|i: int|
            0 <= i < old(diags)@.len() ==> final(diags)@[i] == #[trigger] old(diags)@[i],
        term_view(&r) == spec_check_fallback(
            crate::semantics::genv_view(genv@),
            locals_view(locals@),
            t,
            term_view(expected),
        ).0,
        diags_view(final(diags)@) == diags_view(old(diags)@) + spec_check_fallback(
            crate::semantics::genv_view(genv@),
            locals_view(locals@),
            t,
            term_view(expected),
        ).1,
        ({
            &&& final(diags)@.len() == old(diags)@.len()
            &&& ctx_checkable(crate::semantics::genv_view(genv@), locals@)
            &&& surface::term_error_free(t)
            &&& error_free(term_view(expected))
        }) ==> ({
            &&& spec_ty_of(
                crate::semantics::genv_view(genv@),
                locals_tys(locals@),
                term_view(&r),
            ) == Some(term_view(expected))
            &&& error_free(term_view(&r))
        }),
    decreases t, 1int,
{
    let ghost dv0 = diags_view(old(diags)@);
    let (c, tau) = infer_term(genv, locals, t, diags);
    proof {
        let sf = spec_check_fallback(
            crate::semantics::genv_view(genv@),
            locals_view(locals@),
            t,
            term_view(expected),
        );
        let si = spec_infer(crate::semantics::genv_view(genv@), locals_view(locals@), t);
        if term_view(&tau) == term_view(expected) || term_view(&tau) == SpecTerm::Error
            || term_view(expected) == SpecTerm::Error {
        } else {
            assert(diags_view(diags@).push(
                SpecDiag::TypeMismatch {
                    span: surface::spec_span(t),
                    expected: term_view(expected),
                    found: term_view(&tau),
                },
            ) =~= dv0 + si.2.push(
                SpecDiag::TypeMismatch {
                    span: surface::spec_span(t),
                    expected: term_view(expected),
                    found: term_view(&tau),
                },
            ));
        }
    }
    if compatible(&tau, expected) {
        c
    } else {
        push_diag(diags, ElabError::TypeMismatch { span: t.span(), expected: expected.clone(), found: tau });
        Term::Error(t.span())
    }
}


/// The name span of a surface item.
pub open spec fn spec_item_name_span(i: &surface::Item) -> Span {
    match i {
        surface::Item::Alias(a) => a.name.0,
        surface::Item::Struct(st) => st.name.0,
    }
}

/// The name span of the most recent earlier item with the given name, if any.
pub open spec fn spec_prev_item_span(done: Seq<surface::Item>, n: Seq<char>) -> Option<Span>
    decreases done.len(),
{
    if done.len() == 0 {
        None
    } else if surface::item_name(&done[done.len() - 1]) == n {
        Some(spec_item_name_span(&done[done.len() - 1]))
    } else {
        spec_prev_item_span(done.subrange(0, done.len() - 1), n)
    }
}

/// The name span of the most recent earlier field with the given label, if
/// any.
pub open spec fn spec_prev_field_span(done: Seq<surface::TypeField>, n: Seq<char>) -> Option<Span>
    decreases done.len(),
{
    if done.len() == 0 {
        None
    } else if done[done.len() - 1].name.1@ == n {
        Some(done[done.len() - 1].name.0)
    } else {
        spec_prev_field_span(done.subrange(0, done.len() - 1), n)
    }
}

/// The specified elaboration of a struct's fields, in order, each under the
/// binders of the fields before it: the core fields and the diagnostics.
pub open spec fn spec_elab_fields(
    genv: Seq<crate::semantics::SpecItemEntry>,
    locals: Seq<SpecLocal>,
    done: Seq<surface::TypeField>,
    fields: Seq<surface::TypeField>,
) -> (Seq<crate::ast::SpecField>, Seq<SpecDiag>)
    decreases fields.len(),
{
    if fields.len() == 0 {
        (Seq::empty(), Seq::empty())
    } else {
        let f = &fields[0];
        let d_dup = match spec_prev_field_span(done, f.name.1@) {
            Some(first) => seq![
                SpecDiag::DuplicateField { label: f.name.1@, first, second: f.name.0 },
            ],
            None => Seq::empty(),
        };
        let (cty0, u, d1) = spec_infer(genv, locals, &f.term);
        let kind_ok = u == SpecTerm::Universe(Universe::Type) || u == SpecTerm::Universe(
            Universe::Format,
        ) || u == SpecTerm::Error;
        let cty = if kind_ok {
            cty0
        } else {
            SpecTerm::Error
        };
        let d2 = if kind_ok {
            d_dup + d1
        } else {
            (d_dup + d1).push(
                SpecDiag::ExpectedFormat { span: surface::spec_span(&f.term), found: u },
            )
        };
        let nty = spec_normalize(genv, rigid_seq(locals.len()), cty);
        let binder_ty = crate::check::spec_binder_of(Some(u), nty);
        let field = crate::ast::SpecField { doc: f.doc.deep_view(), label: f.name.1@, term: cty };
        let (rest_fields, rest_d) = spec_elab_fields(
            genv,
            locals.push(SpecLocal { label: f.name.1@, ty: binder_ty }),
            done.push(fields[0]),
            fields.subrange(1, fields.len() as int),
        );
        (seq![field] + rest_fields, d2 + rest_d)
    }
}

/// The specified elaboration of one item under the items before it: the core
/// item, the environment entry it binds, and the diagnostics.
pub open spec fn spec_elab_item(
    genv: Seq<crate::semantics::SpecItemEntry>,
    done: Seq<surface::Item>,
    item: &surface::Item,
) -> (SpecItem, crate::semantics::SpecItemEntry, Seq<SpecDiag>) {
    match item {
        surface::Item::Alias(a) => {
            let d_dup = match spec_prev_item_span(done, a.name.1@) {
                Some(first) => seq![
                    SpecDiag::DuplicateDefinition { name: a.name.1@, first, second: a.name.0 },
                ],
                None => Seq::empty(),
            };
            let (core_term, tau, d_elab) = match &a.ty {
                Some(sty) => {
                    let (cty, u, d1) = spec_infer(genv, Seq::empty(), sty);
                    let is_universe = u matches SpecTerm::Universe(_) || u == SpecTerm::Error;
                    let tau = if is_universe {
                        spec_normalize(genv, rigid_seq(0), cty)
                    } else {
                        SpecTerm::Error
                    };
                    let d2 = if is_universe {
                        d1
                    } else {
                        d1.push(
                            SpecDiag::ExpectedType {
                                span: surface::spec_span(sty),
                                found: u,
                            },
                        )
                    };
                    let (ce, d3) = spec_check(genv, Seq::empty(), &a.term, tau);
                    (SpecTerm::Ann(Box::new(ce), Box::new(cty)), tau, d2 + d3)
                },
                None => spec_infer(genv, Seq::empty(), &a.term),
            };
            let def = spec_normalize(genv, Seq::empty(), core_term);
            (
                SpecItem::Alias(
                    crate::ast::SpecAlias {
                        doc: a.doc.deep_view(),
                        name: a.name.1@,
                        term: core_term,
                    },
                ),
                crate::semantics::SpecItemEntry { name: a.name.1@, ty: tau, def: Some(def) },
                d_dup + d_elab,
            )
        },
        surface::Item::Struct(st) => {
            let d_dup = match spec_prev_item_span(done, st.name.1@) {
                Some(first) => seq![
                    SpecDiag::DuplicateDefinition { name: st.name.1@, first, second: st.name.0 },
                ],
                None => Seq::empty(),
            };
            let (fields, d_fields) = spec_elab_fields(
                genv,
                Seq::empty(),
                Seq::empty(),
                st.fields@,
            );
            (
                SpecItem::Struct(
                    crate::ast::SpecStructType {
                        doc: st.doc.deep_view(),
                        name: st.name.1@,
                        fields,
                    },
                ),
                crate::semantics::SpecItemEntry {
                    name: st.name.1@,
                    ty: SpecTerm::Universe(Universe::Format),
                    def: None,
                },
                d_dup + d_fields,
            )
        },
    }
}

/// The specified elaboration of a module's items, in declaration order, each
/// seeing the entries of the items before it.
pub open spec fn spec_elab_items(
    genv: Seq<crate::semantics::SpecItemEntry>,
    done: Seq<surface::Item>,
    rest: Seq<surface::Item>,
) -> (Seq<SpecItem>, Seq<SpecDiag>)
    decreases rest.len(),
{
    if rest.len() == 0 {
        (Seq::empty(), Seq::empty())
    } else {
        let (it, entry, d) = spec_elab_item(genv, done, &rest[0]);
        let (ri, rd) = spec_elab_items(
            genv.push(entry),
            done.push(rest[0]),
            rest.subrange(1, rest.len() as int),
        );
        (seq![it] + ri, d + rd)
    }
}


/// The name span of the most recent earlier item (among the first `upto`)
/// with the given name, if any.
#[verifier::loop_isolation(false)]
fn prev_item_span(items: &Vec<surface::Item>, upto: usize, name: &String) -> (r: Option<Span>)
    requires
        upto <= items@.len(),
    ensures
        r == spec_prev_item_span(items@.subrange(0, upto as int), name@),
{
    let ghost full = items@.subrange(0, upto as int);
    let mut k: usize = upto;
    proof {
        assert(full.subrange(0, full.len() as int) =~= full);
    }
    while k > 0
        invariant
            k <= upto,
            spec_prev_item_span(full, name@) == spec_prev_item_span(
                full.subrange(0, k as int),
                name@,
            ),
        decreases k,
    {
        let ghost pre = full.subrange(0, k as int);
        proof {
            assert(pre[pre.len() - 1] == items@[k - 1]);
            assert(pre.subrange(0, pre.len() - 1) =~= full.subrange(0, k - 1));
        }
        match &items[k - 1] {
            surface::Item::Alias(a) => {
                if crate::ast::string_eq(&a.name.1, name) {
                    return Some(a.name.0);
                }
            },
            surface::Item::Struct(st) => {
                if crate::ast::string_eq(&st.name.1, name) {
                    return Some(st.name.0);
                }
            },
        }
        k = k - 1;
    }
    proof {
        assert(full.subrange(0, 0) =~= Seq::<surface::Item>::empty());
    }
    None
}

/// The name span of the most recent earlier field (among the first `upto`)
/// with the given label, if any.
#[verifier::loop_isolation(false)]
fn prev_field_span(fields: &Vec<surface::TypeField>, upto: usize, name: &String) -> (r: Option<
    Span,
>)
    requires
        upto <= fields@.len(),
    ensures
        r == spec_prev_field_span(fields@.subrange(0, upto as int), name@),
{
    let ghost full = fields@.subrange(0, upto as int);
    let mut k: usize = upto;
    proof {
        assert(full.subrange(0, full.len() as int) =~= full);
    }
    while k > 0
        invariant
            k <= upto,
            spec_prev_field_span(full, name@) == spec_prev_field_span(
                full.subrange(0, k as int),
                name@,
            ),
        decreases k,
    {
        let ghost pre = full.subrange(0, k as int);
        proof {
            assert(pre[pre.len() - 1] == fields@[k - 1]);
            assert(pre.subrange(0, pre.len() - 1) =~= full.subrange(0, k - 1));
        }
        if crate::ast::string_eq(&fields[k - 1].name.1, name) {
            return Some(fields[k - 1].name.0);
        }
        k = k - 1;
    }
    proof {
        assert(full.subrange(0, 0) =~= Seq::<surface::TypeField>::empty());
    }
    None
}

/// Clones a doc-comment block verbatim.
fn clone_doc(doc: &Vec<String>) -> (r: Vec<String>)
    ensures
        r.deep_view() == doc.deep_view(),
{
    let r = doc.clone();
    proof {
        assert(r.deep_view() =~= doc.deep_view());
    }
    r
}


/// No earlier field carries the label exactly when every earlier field's
/// label differs.
proof fn lemma_prev_field_none_all(prefix: Seq<surface::TypeField>, n: Seq<char>)
    requires
        spec_prev_field_span(prefix, n) is None,
    ensures
        forall|i: int| 0 <= i < prefix.len() ==> (#[trigger] prefix[i]).name.1@ != n,
    decreases prefix.len(),
{
    if prefix.len() > 0 {
        lemma_prev_field_none_all(prefix.subrange(0, prefix.len() - 1), n);
        assert forall|i: int|
            0 <= i < prefix.len() implies (#[trigger] prefix[i]).name.1@ != n by {
            if i < prefix.len() - 1 {
                assert(prefix.subrange(0, prefix.len() - 1)[i] == prefix[i]);
            }
        }
    }
}

/// Elaborates the fields of one struct item, in order, each under the
/// binders of the fields before it; the emitted core fields and the
/// diagnostics are pinned exactly to `spec_elab_fields`.
#[verifier::loop_isolation(false)]
#[verifier::rlimit(100)]
fn elab_fields(
    genv: &Vec<ItemEntry>,
    sfields: &Vec<surface::TypeField>,
    diags: &mut Vec<ElabError>,
) -> (r: Vec<TypeField>)
    ensures
        old(diags)@.len() <= final(diags)@.len(),
        forall|i: int|
            0 <= i < old(diags)@.len() ==> final(diags)@[i] == #[trigger] old(diags)@[i],
        crate::ast::fields_view(r@) == spec_elab_fields(
            crate::semantics::genv_view(genv@),
            Seq::empty(),
            Seq::empty(),
            sfields@,
        ).0,
        diags_view(final(diags)@) == diags_view(old(diags)@) + spec_elab_fields(
            crate::semantics::genv_view(genv@),
            Seq::empty(),
            Seq::empty(),
            sfields@,
        ).1,
        r@.len() == sfields@.len(),
        forall|j: int|
            0 <= j < sfields@.len() ==> (#[trigger] r@[j]).doc.deep_view()
                == sfields@[j].doc.deep_view() && r@[j].name.1@ == sfields@[j].name.1@,
        ({
            &&& final(diags)@.len() == old(diags)@.len()
            &&& genv_checkable(crate::semantics::genv_view(genv@))
            &&& forall|j: int|
                0 <= j < sfields@.len() ==> surface::term_error_free(
                    &(#[trigger] sfields@[j]).term,
                )
        }) ==> crate::check::spec_fields_ok(
            crate::semantics::genv_view(genv@),
            Seq::empty(),
            crate::ast::fields_view(r@),
        ),
{
    let ghost genv_pre = crate::semantics::genv_view(genv@);
    let ghost flab = spec_elab_fields(
        genv_pre,
        Seq::<SpecLocal>::empty(),
        Seq::<surface::TypeField>::empty(),
        sfields@,
    );
    let ghost dv_base = diags_view(diags@);
    let mut locals: Vec<Local> = Vec::new();
    let mut renv: Vec<EnvEntry> = Vec::new();
    let mut cfields: Vec<TypeField> = Vec::new();
    let mut fi: usize = 0;
    proof {
        assert(locals_view(locals@) =~= Seq::<SpecLocal>::empty());
        assert(sfields@.subrange(0, 0) =~= Seq::<surface::TypeField>::empty());
        assert(sfields@.subrange(0, sfields@.len() as int) =~= sfields@);
        assert(crate::ast::fields_view(cfields@) + flab.0 =~= flab.0);
    }
    while fi < sfields.len()
        invariant
            fi <= sfields@.len(),
            locals@.len() == renv@.len(),
            locals@.len() == fi,
            cfields@.len() == fi,
            forall|j: int| 0 <= j < fi ==> (#[trigger] renv@[j]) is Rigid,
            flab.0 == crate::ast::fields_view(cfields@) + spec_elab_fields(
                genv_pre,
                locals_view(locals@),
                sfields@.subrange(0, fi as int),
                sfields@.subrange(fi as int, sfields@.len() as int),
            ).0,
            dv_base + flab.1 == diags_view(diags@) + spec_elab_fields(
                genv_pre,
                locals_view(locals@),
                sfields@.subrange(0, fi as int),
                sfields@.subrange(fi as int, sfields@.len() as int),
            ).1,
            old(diags)@.len() <= diags@.len(),
            forall|i: int|
                0 <= i < old(diags)@.len() ==> diags@[i] == #[trigger] old(diags)@[i],
            forall|j: int|
                0 <= j < fi ==> (#[trigger] cfields@[j]).doc.deep_view()
                    == sfields@[j].doc.deep_view() && cfields@[j].name.1@
                    == sfields@[j].name.1@,
            ({
                &&& diags@.len() == old(diags)@.len()
                &&& genv_checkable(genv_pre)
                &&& forall|j: int|
                    0 <= j < sfields@.len() ==> surface::term_error_free(
                        &(#[trigger] sfields@[j]).term,
                    )
            }) ==> ({
                &&& locals_checkable(locals@)
                &&& crate::check::spec_fields_lctx(
                    genv_pre,
                    Seq::empty(),
                    crate::ast::fields_view(cfields@),
                ) == locals_tys(locals@)
                &&& forall|i: int|
                    0 <= i < fi ==> ({
                        let u = spec_ty_of(
                            genv_pre,
                            crate::check::spec_fields_lctx(
                                genv_pre,
                                Seq::empty(),
                                crate::ast::fields_view(cfields@).subrange(0, i),
                            ),
                            (#[trigger] crate::ast::fields_view(cfields@)[i]).term,
                        );
                        u == Some(SpecTerm::Universe(Universe::Type)) || u == Some(
                            SpecTerm::Universe(Universe::Format),
                        )
                    })
                &&& forall|i: int, j: int|
                    0 <= i < j < fi ==> (#[trigger] crate::ast::fields_view(cfields@)[i].label)
                        != (#[trigger] crate::ast::fields_view(cfields@)[j].label)
            }),
        decreases sfields@.len() - fi,
    {
        let ghost fsuffix = sfields@.subrange(fi as int, sfields@.len() as int);
        let ghost fprefix = sfields@.subrange(0, fi as int);
        let ghost lv_pre = locals_view(locals@);
        let ghost lv_pre_exec = locals@;
        let ghost cf_pre = cfields@;
        proof {
            assert(fsuffix[0] == sfields@[fi as int]);
            assert(fsuffix.subrange(1, fsuffix.len() as int) =~= sfields@.subrange(
                fi + 1,
                sfields@.len() as int,
            ));
            assert(fprefix.push(sfields@[fi as int]) =~= sfields@.subrange(0, fi + 1));
        }
        let f = &sfields[fi];
        match prev_field_span(sfields, fi, &f.name.1) {
            Some(first) => {
                push_diag(
                    &mut *diags,
                    ElabError::DuplicateField {
                        label: f.name.1.clone(),
                        first,
                        second: f.name.0,
                    },
                );
            },
            None => {},
        }
        let ghost dv_fdup = diags_view(diags@);
        let (cty0, u) = infer_term(genv, &locals, &f.term, diags);
        let kind_ok: bool = match &u {
            Term::Universe(_, Universe::Type) => true,
            Term::Universe(_, Universe::Format) => true,
            Term::Error(_) => true,
            _ => false,
        };
        let is_format: bool = matches!(&u, Term::Universe(_, Universe::Format));
        let cty: Term;
        if kind_ok {
            cty = cty0;
        } else {
            push_diag(&mut *diags, ElabError::ExpectedFormat { span: f.term.span(), found: u });
            cty = Term::Error(f.term.span());
        }
        let ghost renv_pre = renv@;
        proof {
            assert(crate::semantics::env_view(renv_pre) =~= rigid_seq(fi as nat));
        }
        let nty = normalize(genv, &mut renv, &cty);
        let binder_ty: Term = if is_format {
            let host = repr(f.name.0, &nty);
            if matches!(&host, Term::Error(_)) {
                nty
            } else {
                host
            }
        } else {
            nty
        };
        cfields.push(
            TypeField { doc: clone_doc(&f.doc), name: (f.name.0, f.name.1.clone()), term: cty },
        );
        locals.push(Local { label: f.name.1.clone(), ty: binder_ty });
        renv.push(EnvEntry::Rigid);
        proof {
            let d1 = spec_infer(genv_pre, lv_pre, &sfields@[fi as int].term).2;
            let d_dup = match spec_prev_field_span(fprefix, sfields@[fi as int].name.1@) {
                Some(first) => seq![
                    SpecDiag::DuplicateField {
                        label: sfields@[fi as int].name.1@,
                        first,
                        second: sfields@[fi as int].name.0,
                    },
                ],
                None => Seq::<SpecDiag>::empty(),
            };
            if !kind_ok {
                assert((dv_fdup + d1).push(
                    SpecDiag::ExpectedFormat {
                        span: surface::spec_span(&sfields@[fi as int].term),
                        found: term_view(&u),
                    },
                ) =~= dv_fdup + d1.push(
                    SpecDiag::ExpectedFormat {
                        span: surface::spec_span(&sfields@[fi as int].term),
                        found: term_view(&u),
                    },
                ));
            }
            assert(cfields@[fi as int]@ == crate::ast::SpecField {
                doc: sfields@[fi as int].doc.deep_view(),
                label: sfields@[fi as int].name.1@,
                term: term_view(&cty),
            });
            assert(locals_view(locals@) =~= lv_pre.push(
                SpecLocal { label: sfields@[fi as int].name.1@, ty: term_view(&binder_ty) },
            ));
            assert(crate::ast::fields_view(cfields@) =~= crate::ast::fields_view(cf_pre).push(
                cfields@[fi as int]@,
            ));
            if diags@.len() == old(diags)@.len() && genv_checkable(genv_pre) && (forall|j: int|
                0 <= j < sfields@.len() ==> surface::term_error_free(
                    &(#[trigger] sfields@[j]).term,
                )) {
                let fv_pre = crate::ast::fields_view(cf_pre);
                let fv = crate::ast::fields_view(cfields@);
                let newf = cfields@[fi as int]@;
                assert(surface::term_error_free(&sfields@[fi as int].term));
                assert(spec_ty_of(genv_pre, locals_tys(lv_pre_exec), term_view(&cty)) == Some(
                    term_view(&u),
                ));
                assert(error_free(term_view(&u)));
                assert(error_free(term_view(&cty)));
                assert(term_view(&u) == SpecTerm::Universe(Universe::Type) || term_view(&u)
                    == SpecTerm::Universe(Universe::Format));
                assert(spec_prev_field_span(fprefix, sfields@[fi as int].name.1@) is None);
                lemma_prev_field_none_all(fprefix, sfields@[fi as int].name.1@);
                crate::check::lemma_fields_lctx_push(
                    genv_pre,
                    Seq::empty(),
                    fv_pre,
                    newf,
                );
                assert(crate::check::spec_fields_lctx(genv_pre, Seq::empty(), fv_pre)
                    == locals_tys(lv_pre_exec));
                assert(term_view(&nty) == spec_normalize(
                    genv_pre,
                    rigid_seq(fi as nat),
                    newf.term,
                ));
                assert(term_view(&binder_ty) == crate::check::spec_binder_of(
                    Some(term_view(&u)),
                    term_view(&nty),
                ));
                assert(crate::check::spec_fields_lctx(genv_pre, Seq::empty(), fv)
                    =~= locals_tys(locals@));
                lemma_genv_error_free(genv_pre);
                assert(crate::semantics::env_error_free(rigid_seq(fi as nat)));
                crate::semantics::lemma_normalize_error_free(
                    genv_pre,
                    rigid_seq(fi as nat),
                    term_view(&cty),
                );
                assert(error_free(term_view(&nty)));
                assert(error_free(term_view(&binder_ty)));
                assert(locals_checkable(locals@)) by {
                    assert forall|k: int|
                        0 <= k < locals@.len() implies error_free(
                        term_view(&(#[trigger] locals@[k]).ty),
                    ) by {
                        if k < lv_pre_exec.len() {
                            assert(locals@[k] == lv_pre_exec[k]);
                        }
                    }
                }
                assert forall|i: int|
                    0 <= i < fi + 1 implies ({
                    let un = spec_ty_of(
                        genv_pre,
                        crate::check::spec_fields_lctx(
                            genv_pre,
                            Seq::empty(),
                            fv.subrange(0, i),
                        ),
                        (#[trigger] fv[i]).term,
                    );
                    un == Some(SpecTerm::Universe(Universe::Type)) || un == Some(
                        SpecTerm::Universe(Universe::Format),
                    )
                }) by {
                    if i < fi {
                        assert(fv.subrange(0, i) =~= fv_pre.subrange(0, i));
                        assert(fv[i] == fv_pre[i]);
                    } else {
                        assert(fv.subrange(0, fi as int) =~= fv_pre);
                        assert(fv[fi as int] == newf);
                    }
                }
                assert forall|i: int, j: int|
                    0 <= i < j < fi + 1 implies (#[trigger] fv[i].label) != (
                    #[trigger] fv[j].label) by {
                    if j < fi {
                        assert(fv[i] == fv_pre[i]);
                        assert(fv[j] == fv_pre[j]);
                    } else {
                        assert(fv[i] == fv_pre[i]);
                        assert(fv_pre[i].label == cf_pre[i].name.1@);
                        assert(cf_pre[i].name.1@ == sfields@[i].name.1@);
                        assert(fprefix[i] == sfields@[i]);
                        assert(fv[j] == newf);
                        assert(newf.label == sfields@[fi as int].name.1@);
                    }
                }
            }
        }
        fi = fi + 1;
    }
    proof {
        assert(sfields@.subrange(fi as int, sfields@.len() as int)
            =~= Seq::<surface::TypeField>::empty());
        assert(crate::ast::fields_view(cfields@) + Seq::<crate::ast::SpecField>::empty()
            =~= crate::ast::fields_view(cfields@));
        assert(diags_view(diags@) + Seq::<SpecDiag>::empty() =~= diags_view(diags@));
        if diags@.len() == old(diags)@.len() && genv_checkable(genv_pre) && (forall|j: int|
            0 <= j < sfields@.len() ==> surface::term_error_free(
                &(#[trigger] sfields@[j]).term,
            )) {
            crate::check::lemma_fields_ok_intro(
                genv_pre,
                Seq::empty(),
                crate::ast::fields_view(cfields@),
            );
        }
    }
    cfields
}

/// Elaborates the items of a surface module in declaration order, each item
/// seeing the types and reduced definitions of the items before it. One core
/// item is emitted for every surface item — on an error its payload holds
/// error sentinels — with the item's name and doc lines carried over
/// verbatim. The emitted items and the diagnostics, in discovery order, are
/// pinned exactly to the specified elaboration `spec_elab_items`.
///
/// Elaboration is sound: when it reports no diagnostic and the surface
/// module is free of parse-error sentinels, the emitted core module is well
/// typed — `check_program` accepts it. A field whose format has no primitive
/// host representation, such as an array or a struct reference, binds its
/// binder at the field's own format, so any later use of that binder draws a
/// diagnostic here and a rejection from the core checker alike.
#[verifier::loop_isolation(false)]
#[verifier::rlimit(100)]
pub fn elaborate_module(m: &surface::Module) -> (r: (Module, Vec<ElabError>))
    ensures
        r.0.file_id == m.file_id,
        r.0.doc.deep_view() == m.doc.deep_view(),
        r.0.items@.len() == m.items@.len(),
        items_view(r.0.items@) == spec_elab_items(Seq::empty(), Seq::empty(), m.items@).0,
        diags_view(r.1@) == spec_elab_items(Seq::empty(), Seq::empty(), m.items@).1,
        forall|i: int|
            0 <= i < m.items@.len() ==> spec_item_doc(#[trigger] items_view(r.0.items@)[i])
                == surface::item_doc(&m.items@[i]),
        forall|i: int|
            0 <= i < m.items@.len() ==> spec_item_name(#[trigger] items_view(r.0.items@)[i])
                == surface::item_name(&m.items@[i]),
        ({
            &&& r.1@.len() == 0
            &&& forall|i: int|
                0 <= i < m.items@.len() ==> surface::item_error_free(&(#[trigger] m.items@[i]))
        }) ==> crate::check::spec_check_items(Seq::empty(), items_view(r.0.items@)),
{
    let ghost elab = spec_elab_items(Seq::empty(), Seq::empty(), m.items@);
    let mut genv: Vec<ItemEntry> = Vec::new();
    let mut diags: Vec<ElabError> = Vec::new();
    let mut items: Vec<Item> = Vec::new();
    let mut idx: usize = 0;
    proof {
        assert(crate::semantics::genv_view(genv@) =~= Seq::<crate::semantics::SpecItemEntry>::empty());
        assert(m.items@.subrange(0, 0) =~= Seq::<surface::Item>::empty());
        assert(m.items@.subrange(0, m.items@.len() as int) =~= m.items@);
        assert(items_view(items@) + elab.0 =~= elab.0);
        assert(diags_view(diags@) + elab.1 =~= elab.1);
    }
    while idx < m.items.len()
        invariant
            idx <= m.items@.len(),
            items@.len() == idx,
            forall|i: int|
                0 <= i < idx ==> spec_item_doc(#[trigger] items@[i]@) == surface::item_doc(
                    &m.items@[i],
                ),
            forall|i: int|
                0 <= i < idx ==> spec_item_name(#[trigger] items@[i]@) == surface::item_name(
                    &m.items@[i],
                ),
            elab.0 == items_view(items@) + spec_elab_items(
                crate::semantics::genv_view(genv@),
                m.items@.subrange(0, idx as int),
                m.items@.subrange(idx as int, m.items@.len() as int),
            ).0,
            elab.1 == diags_view(diags@) + spec_elab_items(
                crate::semantics::genv_view(genv@),
                m.items@.subrange(0, idx as int),
                m.items@.subrange(idx as int, m.items@.len() as int),
            ).1,
            ({
                &&& diags@.len() == 0
                &&& forall|i: int|
                    0 <= i < idx ==> surface::item_error_free(&(#[trigger] m.items@[i]))
            }) ==> ({
                &&& crate::check::spec_check_items(Seq::empty(), items_view(items@))
                &&& crate::semantics::genv_view(genv@) == crate::check::spec_genv_fold(
                    Seq::empty(),
                    items_view(items@),
                )
                &&& genv_checkable(crate::semantics::genv_view(genv@))
            }),
        decreases m.items@.len() - idx,
    {
        let ghost items_pre = items@;
        let ghost genv_pre = crate::semantics::genv_view(genv@);
        let ghost dv_pre = diags_view(diags@);
        let ghost dlen0 = diags@.len();
        let ghost prefix = m.items@.subrange(0, idx as int);
        let ghost suffix = m.items@.subrange(idx as int, m.items@.len() as int);
        let ghost step = spec_elab_item(genv_pre, prefix, &m.items@[idx as int]);
        proof {
            assert(suffix[0] == m.items@[idx as int]);
            assert(suffix.subrange(1, suffix.len() as int) =~= m.items@.subrange(
                idx + 1,
                m.items@.len() as int,
            ));
            assert(prefix.push(m.items@[idx as int]) =~= m.items@.subrange(0, idx + 1));
        }
        match &m.items[idx] {
            surface::Item::Alias(a) => {
                match prev_item_span(&m.items, idx, &a.name.1) {
                    Some(first) => {
                        push_diag(
                            &mut diags,
                            ElabError::DuplicateDefinition {
                                name: a.name.1.clone(),
                                first,
                                second: a.name.0,
                            },
                        );
                    },
                    None => {},
                }
                let ghost dv_dup = diags_view(diags@);
                let locals: Vec<Local> = Vec::new();
                proof {
                    assert(locals_view(locals@) =~= Seq::<SpecLocal>::empty());
                    assert(locals_tys(locals@) =~= Seq::<SpecTerm>::empty());
                }
                let core_term: Term;
                let tau: Term;
                match &a.ty {
                    Some(sty) => {
                        let (cty, u) = infer_term(&genv, &locals, sty, &mut diags);
                        let is_universe: bool = match &u {
                            Term::Universe(_, _) => true,
                            Term::Error(_) => true,
                            _ => false,
                        };
                        if is_universe {
                            let mut renv: Vec<EnvEntry> = Vec::new();
                            tau = normalize(&genv, &mut renv, &cty);
                            proof {
                                assert(crate::semantics::env_view(Seq::<EnvEntry>::empty())
                                    =~= rigid_seq(0));
                                if error_free(term_view(&cty)) && genv_checkable(genv_pre) {
                                    lemma_genv_error_free(genv_pre);
                                    assert(crate::semantics::env_error_free(rigid_seq(0)));
                                    crate::semantics::lemma_normalize_error_free(
                                        genv_pre,
                                        rigid_seq(0),
                                        term_view(&cty),
                                    );
                                }
                            }
                        } else {
                            push_diag(
                                &mut diags,
                                ElabError::ExpectedType { span: sty.span(), found: u },
                            );
                            tau = Term::Error(sty.span());
                        }
                        let ce = check_term(&genv, &locals, &a.term, &tau, &mut diags);
                        core_term = Term::Ann(Box::new(ce), Box::new(cty));
                        proof {
                            let si = spec_infer(genv_pre, Seq::empty(), sty);
                            let d2 = if term_view(&u) matches SpecTerm::Universe(_) || term_view(
                                &u,
                            ) == SpecTerm::Error {
                                si.2
                            } else {
                                si.2.push(
                                    SpecDiag::ExpectedType {
                                        span: surface::spec_span(sty),
                                        found: term_view(&u),
                                    },
                                )
                            };
                            let d3 = spec_check(
                                genv_pre,
                                Seq::empty(),
                                &a.term,
                                term_view(&tau),
                            ).1;
                            if !is_universe {
                                assert((dv_dup + si.2).push(
                                    SpecDiag::ExpectedType {
                                        span: surface::spec_span(sty),
                                        found: term_view(&u),
                                    },
                                ) =~= dv_dup + d2);
                            }
                            assert(diags_view(diags@) =~= dv_dup + (d2 + d3));
                            if diags@.len() == 0 && genv_checkable(genv_pre)
                                && surface::item_error_free(&m.items@[idx as int]) {
                                assert(surface::term_error_free(sty));
                                assert(surface::term_error_free(&a.term));
                                assert(error_free(term_view(&u)));
                                assert(spec_ty_of(genv_pre, Seq::empty(), term_view(&cty))
                                    == Some(term_view(&u)));
                                assert(term_view(&u) matches SpecTerm::Universe(_));
                                assert(error_free(term_view(&tau)));
                                assert(spec_ty_of(genv_pre, Seq::empty(), term_view(&ce))
                                    == Some(term_view(&tau)));
                                assert(spec_ty_of(
                                    genv_pre,
                                    Seq::empty(),
                                    term_view(&core_term),
                                ) == Some(term_view(&tau)));
                                assert(error_free(term_view(&core_term)));
                            }
                        }
                    },
                    None => {
                        let (ce, u) = infer_term(&genv, &locals, &a.term, &mut diags);
                        core_term = ce;
                        tau = u;
                        proof {
                            assert(diags_view(diags@) =~= dv_dup + spec_infer(
                                genv_pre,
                                Seq::empty(),
                                &a.term,
                            ).2);
                            if diags@.len() == 0 && genv_checkable(genv_pre)
                                && surface::item_error_free(&m.items@[idx as int]) {
                                assert(surface::term_error_free(&a.term));
                                assert(spec_ty_of(
                                    genv_pre,
                                    Seq::empty(),
                                    term_view(&core_term),
                                ) == Some(term_view(&tau)));
                                assert(error_free(term_view(&core_term)));
                                assert(error_free(term_view(&tau)));
                            }
                        }
                    },
                }
                let mut renv: Vec<EnvEntry> = Vec::new();
                let def = normalize(&genv, &mut renv, &core_term);
                proof {
                    assert(crate::semantics::env_view(Seq::<EnvEntry>::empty())
                        =~= Seq::<crate::semantics::SpecEnvEntry>::empty());
                    if diags@.len() == 0 && genv_checkable(genv_pre)
                        && surface::item_error_free(&m.items@[idx as int]) && error_free(
                        term_view(&core_term),
                    ) {
                        lemma_genv_error_free(genv_pre);
                        assert(crate::semantics::env_error_free(
                            Seq::<crate::semantics::SpecEnvEntry>::empty(),
                        ));
                        crate::semantics::lemma_normalize_error_free(
                            genv_pre,
                            Seq::empty(),
                            term_view(&core_term),
                        );
                        assert(error_free(term_view(&def)));
                    }
                }
                items.push(
                    Item::Alias(
                        crate::ast::Alias {
                            span: a.span,
                            doc: clone_doc(&a.doc),
                            name: a.name.1.clone(),
                            term: core_term,
                        },
                    ),
                );
                genv.push(
                    ItemEntry {
                        span: a.name.0,
                        name: a.name.1.clone(),
                        ty: tau,
                        def: Some(def),
                    },
                );
                proof {
                    assert(items@[idx as int]@ == step.0);
                    assert(genv@[genv@.len() - 1]@ == step.1);
                    assert(diags_view(diags@) =~= dv_pre + step.2);
                    if diags@.len() == 0 && (forall|i: int|
                        0 <= i <= idx ==> surface::item_error_free(&(#[trigger] m.items@[i]))) {
                        assert(dlen0 == 0);
                        assert(crate::check::spec_check_items(
                            Seq::empty(),
                            items_view(items_pre),
                        ));
                        assert(genv_pre == crate::check::spec_genv_fold(
                            Seq::empty(),
                            items_view(items_pre),
                        ));
                        assert(genv_checkable(genv_pre));
                        let itemv = items@[idx as int]@;
                        assert(items_view(items@) =~= items_view(items_pre).push(itemv));
                        assert(crate::check::spec_item_ok(genv_pre, itemv)) by {
                            assert(spec_ty_of(genv_pre, Seq::empty(), term_view(&core_term))
                                == Some(term_view(&tau)));
                            assert(crate::semantics::spec_lookup_item(genv_pre, a.name.1@)
                                is None) by {
                                lemma_prev_span_lookup(genv_pre, items_pre, prefix, a.name.1@);
                            }
                        }
                        let entryv = genv@[genv@.len() - 1]@;
                        assert(entryv == crate::check::spec_item_entry(genv_pre, itemv)) by {
                            assert(spec_ty_of(genv_pre, Seq::empty(), term_view(&core_term))
                                == Some(term_view(&tau)));
                        }
                        assert(crate::semantics::genv_view(genv@) =~= genv_pre.push(entryv));
                        crate::check::lemma_check_items_push(
                            Seq::empty(),
                            items_view(items_pre),
                            itemv,
                        );
                        crate::check::lemma_genv_fold_push(
                            Seq::empty(),
                            items_view(items_pre),
                            itemv,
                        );
                        lemma_genv_checkable_push(genv_pre, entryv);
                    }
                }
            },
            surface::Item::Struct(s) => {
                match prev_item_span(&m.items, idx, &s.name.1) {
                    Some(first) => {
                        push_diag(
                            &mut diags,
                            ElabError::DuplicateDefinition {
                                name: s.name.1.clone(),
                                first,
                                second: s.name.0,
                            },
                        );
                    },
                    None => {},
                }
                let cfields = elab_fields(&genv, &s.fields, &mut diags);
                let ghost fieldsv = crate::ast::fields_view(cfields@);
                proof {
                    assert(diags_view(diags@) =~= dv_pre + step.2);
                    if diags@.len() == 0 && genv_checkable(genv_pre)
                        && surface::item_error_free(&m.items@[idx as int]) {
                        assert(forall|j: int|
                            0 <= j < s.fields@.len() ==> surface::term_error_free(
                                &(#[trigger] s.fields@[j]).term,
                            ));
                        assert(crate::check::spec_fields_ok(genv_pre, Seq::empty(), fieldsv));
                    }
                }
                items.push(
                    Item::Struct(
                        StructType {
                            span: s.span,
                            doc: clone_doc(&s.doc),
                            name: s.name.1.clone(),
                            fields: cfields,
                        },
                    ),
                );
                genv.push(
                    ItemEntry {
                        span: s.name.0,
                        name: s.name.1.clone(),
                        ty: Term::Universe(s.span, Universe::Format),
                        def: None,
                    },
                );
                proof {
                    assert(items@[idx as int]@ == step.0);
                    assert(genv@[genv@.len() - 1]@ == step.1);
                    assert(diags_view(diags@) =~= dv_pre + step.2);
                    if diags@.len() == 0 && (forall|i: int|
                        0 <= i <= idx ==> surface::item_error_free(&(#[trigger] m.items@[i]))) {
                        assert(dlen0 == 0);
                        assert(crate::check::spec_check_items(
                            Seq::empty(),
                            items_view(items_pre),
                        ));
                        assert(genv_pre == crate::check::spec_genv_fold(
                            Seq::empty(),
                            items_view(items_pre),
                        ));
                        assert(genv_checkable(genv_pre));
                        let itemv = items@[idx as int]@;
                        assert(items_view(items@) =~= items_view(items_pre).push(itemv));
                        assert(itemv matches SpecItem::Struct(st) && st.fields == fieldsv);
                        assert(crate::check::spec_fields_ok(genv_pre, Seq::empty(), fieldsv));
                        assert(crate::check::spec_item_ok(genv_pre, itemv)) by {
                            assert(crate::semantics::spec_lookup_item(genv_pre, s.name.1@)
                                is None) by {
                                lemma_prev_span_lookup(genv_pre, items_pre, prefix, s.name.1@);
                            }
                        }
                        let entryv = genv@[genv@.len() - 1]@;
                        assert(entryv == crate::check::spec_item_entry(genv_pre, itemv));
                        assert(crate::semantics::genv_view(genv@) =~= genv_pre.push(entryv));
                        crate::check::lemma_check_items_push(
                            Seq::empty(),
                            items_view(items_pre),
                            itemv,
                        );
                        crate::check::lemma_genv_fold_push(
                            Seq::empty(),
                            items_view(items_pre),
                            itemv,
                        );
                        lemma_genv_checkable_push(genv_pre, entryv);
                    }
                }
            },
        }
        proof {
            assert(items@.len() == idx + 1);
            assert forall|i: int| 0 <= i < idx implies items@[i] == items_pre[i] by {}
            assert(spec_item_doc(items@[idx as int]@) == surface::item_doc(&m.items@[idx as int]));
            assert(spec_item_name(items@[idx as int]@) == surface::item_name(
                &m.items@[idx as int],
            ));
            assert(items_view(items@) =~= items_view(items_pre).push(items@[idx as int]@));
            assert(crate::semantics::genv_view(genv@) =~= genv_pre.push(step.1));
        }
        idx = idx + 1;
    }
    proof {
        assert(m.items@.subrange(idx as int, m.items@.len() as int)
            =~= Seq::<surface::Item>::empty());
        assert(items_view(items@) + Seq::<SpecItem>::empty() =~= items_view(items@));
        assert(diags_view(diags@) + Seq::<SpecDiag>::empty() =~= diags_view(diags@));
        assert forall|i: int| 0 <= i < m.items@.len() implies spec_item_doc(
            #[trigger] items_view(items@)[i],
        ) == surface::item_doc(&m.items@[i]) && spec_item_name(items_view(items@)[i])
            == surface::item_name(&m.items@[i]) by {
            assert(items_view(items@)[i] == items@[i]@);
        }
    }
    let module = Module { file_id: m.file_id, doc: clone_doc(&m.doc), items };
    (module, diags)
}

/// When no earlier item carries a name, the environment does not bind it.
proof fn lemma_prev_span_lookup(
    genv: Seq<crate::semantics::SpecItemEntry>,
    items: Seq<Item>,
    prefix: Seq<surface::Item>,
    n: Seq<char>,
)
    requires
        genv == crate::check::spec_genv_fold(Seq::empty(), items_view(items)),
        items.len() == prefix.len(),
        forall|i: int|
            0 <= i < prefix.len() ==> spec_item_name(#[trigger] items_view(items)[i])
                == surface::item_name(&prefix[i]),
        spec_prev_item_span(prefix, n) is None,
    ensures
        crate::semantics::spec_lookup_item(genv, n) is None,
{
    lemma_fold_lookup(Seq::empty(), items_view(items), prefix, n);
}

/// Looking a name up in a folded environment finds exactly the names of the
/// folded items (or of the base).
proof fn lemma_fold_lookup(
    g0: Seq<crate::semantics::SpecItemEntry>,
    items: Seq<SpecItem>,
    prefix: Seq<surface::Item>,
    n: Seq<char>,
)
    requires
        items.len() == prefix.len(),
        forall|i: int|
            0 <= i < prefix.len() ==> spec_item_name(#[trigger] items[i]) == surface::item_name(
                &prefix[i],
            ),
        spec_prev_item_span(prefix, n) is None,
        crate::semantics::spec_lookup_item(g0, n) is None,
    ensures
        crate::semantics::spec_lookup_item(
            crate::check::spec_genv_fold(g0, items),
            n,
        ) is None,
    decreases items.len(),
{
    if items.len() > 0 {
        let e0 = crate::check::spec_item_entry(g0, items[0]);
        let g1 = g0.push(e0);
        lemma_prev_span_none_all(prefix, n);
        assert(e0.name == spec_item_name(items[0]));
        assert(surface::item_name(&prefix[0]) != n);
        assert(crate::semantics::spec_lookup_item(g1, n) is None) by {
            assert(g1[g1.len() - 1] == e0);
            assert(g1.subrange(0, g1.len() - 1) =~= g0);
        }
        assert forall|i: int|
            0 <= i < prefix.len() - 1 implies spec_item_name(
            #[trigger] items.subrange(1, items.len() as int)[i],
        ) == surface::item_name(&prefix.subrange(1, prefix.len() as int)[i]) by {
            assert(items.subrange(1, items.len() as int)[i] == items[i + 1]);
            assert(prefix.subrange(1, prefix.len() as int)[i] == prefix[i + 1]);
        }
        assert(spec_prev_item_span(prefix.subrange(1, prefix.len() as int), n) is None) by {
            assert forall|i: int|
                0 <= i < prefix.len() - 1 implies #[trigger] surface::item_name(
                &prefix.subrange(1, prefix.len() as int)[i],
            ) != n by {
                assert(prefix.subrange(1, prefix.len() as int)[i] == prefix[i + 1]);
            }
            lemma_prev_span_all_none(prefix.subrange(1, prefix.len() as int), n);
        }
        lemma_fold_lookup(
            g1,
            items.subrange(1, items.len() as int),
            prefix.subrange(1, prefix.len() as int),
            n,
        );
        assert(crate::check::spec_genv_fold(g0, items) == crate::check::spec_genv_fold(
            g1,
            items.subrange(1, items.len() as int),
        ));
    }
}

/// No earlier item carries the name exactly when every earlier item's name
/// differs.
proof fn lemma_prev_span_none_all(prefix: Seq<surface::Item>, n: Seq<char>)
    requires
        spec_prev_item_span(prefix, n) is None,
    ensures
        forall|i: int|
            0 <= i < prefix.len() ==> #[trigger] surface::item_name(&prefix[i]) != n,
    decreases prefix.len(),
{
    if prefix.len() > 0 {
        assert(prefix.subrange(0, prefix.len() - 1) =~= prefix.drop_last());
        lemma_prev_span_none_all(prefix.subrange(0, prefix.len() - 1), n);
        assert forall|i: int|
            0 <= i < prefix.len() implies #[trigger] surface::item_name(&prefix[i]) != n by {
            if i < prefix.len() - 1 {
                assert(prefix.subrange(0, prefix.len() - 1)[i] == prefix[i]);
            }
        }
    }
}

/// Every name differing means no earlier item carries the name.
proof fn lemma_prev_span_all_none(prefix: Seq<surface::Item>, n: Seq<char>)
    requires
        forall|i: int|
            0 <= i < prefix.len() ==> #[trigger] surface::item_name(&prefix[i]) != n,
    ensures
        spec_prev_item_span(prefix, n) is None,
    decreases prefix.len(),
{
    if prefix.len() > 0 {
        assert forall|i: int|
            0 <= i < prefix.len() - 1 implies #[trigger] surface::item_name(
            &prefix.subrange(0, prefix.len() - 1)[i],
        ) != n by {
            assert(prefix.subrange(0, prefix.len() - 1)[i] == prefix[i]);
        }
        lemma_prev_span_all_none(prefix.subrange(0, prefix.len() - 1), n);
    }
}

} // verus!
