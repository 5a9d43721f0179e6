//! The core syntax of the data description language.
//!
//! Core terms are produced by the elaborator and consumed by the normaliser,
//! the core checker, and the format interpreter. Binders are de Bruijn
//! indices; each bound variable also carries a label, kept only for
//! delaboration and printing. Every term carries a source span for
//! diagnostics. Spans and labels are semantically inert: the mathematical
//! model of a term ([`SpecTerm`]) drops both, so equality of models is exactly
//! alpha-equivalence of terms.

use vstd::prelude::*;

use crate::integer::{int_value, Integer, SpecInt};
use crate::span::Span;

verus! {

broadcast use vstd::seq::group_seq_axioms, vstd::std_specs::vec::group_vec_axioms;

/// The universes. `Type` classifies host values, `Format` classifies binary
/// formats, and `Kind` classifies both.
#[derive(Debug, Clone, Copy, PartialEq, Eq, Structural)]
pub enum Universe {
    Type,
    Format,
    Kind,
}

/// Byte order of a multi-byte primitive format.
#[derive(Debug, Clone, Copy, PartialEq, Eq, Structural)]
pub enum Endianness {
    Little,
    Big,
}

/// A primitive format constant: an unsigned integer, signed integer, or IEEE
/// 754 floating-point format of a given byte width and endianness.
#[derive(Debug, Clone, Copy, PartialEq, Eq, Structural)]
pub enum TypeConst {
    /// Unsigned integer of the given byte width.
    U(usize, Endianness),
    /// Two's-complement signed integer of the given byte width.
    S(usize, Endianness),
    /// IEEE 754 floating point of the given byte width.
    F(usize, Endianness),
}

/// Comparison operators on integers, used in constraint predicates.
#[derive(Debug, Clone, Copy, PartialEq, Eq, Structural)]
pub enum CmpOp {
    Eq,
    Ne,
    Lt,
    Le,
    Gt,
    Ge,
}

/// The comparison `a op b` on integer values.
pub open spec fn spec_cmp_eval(op: CmpOp, a: SpecInt, b: SpecInt) -> bool {
    match op {
        CmpOp::Eq => int_value(a) == int_value(b),
        CmpOp::Ne => int_value(a) != int_value(b),
        CmpOp::Lt => int_value(a) < int_value(b),
        CmpOp::Le => int_value(a) <= int_value(b),
        CmpOp::Gt => int_value(a) > int_value(b),
        CmpOp::Ge => int_value(a) >= int_value(b),
    }
}

/// Evaluates a comparison on two canonical integers.
pub fn cmp_eval(op: CmpOp, a: &Integer, b: &Integer) -> (r: bool)
    requires
        a.wf(),
        b.wf(),
    ensures
        r == spec_cmp_eval(op, a@, b@),
{
    proof {
        if a@ == b@ {
        } else {
            if int_value(a@) == int_value(b@) {
                crate::integer::lemma_int_value_injective(a@, b@);
            }
        }
    }
    match op {
        CmpOp::Eq => a.eq(b),
        CmpOp::Ne => !a.eq(b),
        CmpOp::Lt => a.lt(b),
        CmpOp::Le => !b.lt(a),
        CmpOp::Gt => b.lt(a),
        CmpOp::Ge => !a.lt(b),
    }
}

/// A core term.
#[derive(Debug)]
pub enum Term {
    /// A reference to a module item, by name.
    Item(Span, String),
    /// A bound variable: de Bruijn index plus a printing label.
    Var(Span, usize, String),
    /// A universe literal.
    Universe(Span, Universe),
    /// A primitive format constant.
    Prim(Span, TypeConst),
    /// The host type of booleans.
    BoolType(Span),
    /// The host type of unbounded integers.
    IntType(Span),
    /// The host type of 32-bit floats.
    F32Type(Span),
    /// The host type of 64-bit floats.
    F64Type(Span),
    /// The host type of strings.
    StringType(Span),
    /// A boolean literal.
    BoolConst(Span, bool),
    /// An integer literal, with unbounded precision.
    IntConst(Span, Integer),
    /// A 32-bit float literal, stored as its exact bit pattern.
    F32Const(Span, u32),
    /// A 64-bit float literal, stored as its exact bit pattern.
    F64Const(Span, u64),
    /// A string literal.
    StringConst(Span, String),
    /// An annotated term `term : type`.
    Ann(Box<Term>, Box<Term>),
    /// An integer comparison, used in constraint predicates.
    Cmp(Span, CmpOp, Box<Term>, Box<Term>),
    /// Boolean elimination `if c then t else f`.
    BoolElim(Span, Box<Term>, Box<Term>, Box<Term>),
    /// The `Array` primitive applied to a length and an element format.
    ArrayType(Span, Box<Term>, Box<Term>),
    /// An array value.
    ArrayIntro(Span, Vec<Term>),
    /// The empty record type.
    RecordTypeNil(Span),
    /// A dependent record type: label, field type, and the tail record type
    /// under a binder for the field's value.
    RecordTypeCons(Span, String, Box<Term>, Box<Term>),
    /// The empty record value.
    RecordIntroNil(Span),
    /// A record value: label, field value, and the tail record value.
    RecordIntroCons(Span, String, Box<Term>, Box<Term>),
    /// A constrained format `{ x : ty | pred }`: base format, binder label,
    /// and the predicate under a binder for the parsed value.
    Constrained(Span, Box<Term>, String, Box<Term>),
    /// The error sentinel, produced only after an elaboration error.
    Error(Span),
}

/// The mathematical model of a core term: spans and binder labels are
/// dropped, strings become character sequences, and integers become their
/// canonical decimal model. Equality of models is alpha-equivalence.
pub ghost enum SpecTerm {
    Item(Seq<char>),
    Var(nat),
    Universe(Universe),
    Prim(TypeConst),
    BoolType,
    IntType,
    F32Type,
    F64Type,
    StringType,
    BoolConst(bool),
    IntConst(SpecInt),
    F32Const(u32),
    F64Const(u64),
    StringConst(Seq<char>),
    Ann(Box<SpecTerm>, Box<SpecTerm>),
    Cmp(CmpOp, Box<SpecTerm>, Box<SpecTerm>),
    BoolElim(Box<SpecTerm>, Box<SpecTerm>, Box<SpecTerm>),
    ArrayType(Box<SpecTerm>, Box<SpecTerm>),
    ArrayIntro(Seq<SpecTerm>),
    RecordTypeNil,
    RecordTypeCons(Seq<char>, Box<SpecTerm>, Box<SpecTerm>),
    RecordIntroNil,
    RecordIntroCons(Seq<char>, Box<SpecTerm>, Box<SpecTerm>),
    Constrained(Box<SpecTerm>, Box<SpecTerm>),
    Error,
}

/// The models of a sequence of terms, elementwise.
pub open spec fn terms_view(es: Seq<Term>) -> Seq<SpecTerm>
    decreases es,
{
    if es.len() == 0 {
        Seq::empty()
    } else {
        seq![term_view(&es[0])] + terms_view(es.subrange(1, es.len() as int))
    }
}

/// The mathematical model of a term; see [`SpecTerm`].
pub open spec fn term_view(t: &Term) -> SpecTerm
    decreases t,
{
    match t {
        Term::Item(_, n) => SpecTerm::Item(n@),
        Term::Var(_, i, _) => SpecTerm::Var(*i as nat),
        Term::Universe(_, u) => SpecTerm::Universe(*u),
        Term::Prim(_, c) => SpecTerm::Prim(*c),
        Term::BoolType(_) => SpecTerm::BoolType,
        Term::IntType(_) => SpecTerm::IntType,
        Term::F32Type(_) => SpecTerm::F32Type,
        Term::F64Type(_) => SpecTerm::F64Type,
        Term::StringType(_) => SpecTerm::StringType,
        Term::BoolConst(_, b) => SpecTerm::BoolConst(*b),
        Term::IntConst(_, n) => SpecTerm::IntConst(n@),
        Term::F32Const(_, b) => SpecTerm::F32Const(*b),
        Term::F64Const(_, b) => SpecTerm::F64Const(*b),
        Term::StringConst(_, s) => SpecTerm::StringConst(s@),
        Term::Ann(t1, ty) => SpecTerm::Ann(Box::new(term_view(t1)), Box::new(term_view(ty))),
        Term::Cmp(_, op, a, b) => SpecTerm::Cmp(*op, Box::new(term_view(a)), Box::new(term_view(b))),
        Term::BoolElim(_, c, t1, f) => SpecTerm::BoolElim(
            Box::new(term_view(c)),
            Box::new(term_view(t1)),
            Box::new(term_view(f)),
        ),
        Term::ArrayType(_, len, elem) => SpecTerm::ArrayType(
            Box::new(term_view(len)),
            Box::new(term_view(elem)),
        ),
        Term::ArrayIntro(_, es) => SpecTerm::ArrayIntro(terms_view(es@)),
        Term::RecordTypeNil(_) => SpecTerm::RecordTypeNil,
        Term::RecordTypeCons(_, l, ty, rest) => SpecTerm::RecordTypeCons(
            l@,
            Box::new(term_view(ty)),
            Box::new(term_view(rest)),
        ),
        Term::RecordIntroNil(_) => SpecTerm::RecordIntroNil,
        Term::RecordIntroCons(_, l, v, rest) => SpecTerm::RecordIntroCons(
            l@,
            Box::new(term_view(v)),
            Box::new(term_view(rest)),
        ),
        Term::Constrained(_, ty, _, pred) => SpecTerm::Constrained(
            Box::new(term_view(ty)),
            Box::new(term_view(pred)),
        ),
        Term::Error(_) => SpecTerm::Error,
    }
}

impl View for Term {
    type V = SpecTerm;

    open spec fn view(&self) -> SpecTerm {
        term_view(self)
    }
}

/// Pointwise reading of [`terms_view`].
pub proof fn lemma_terms_view(es: Seq<Term>)
    ensures
        terms_view(es).len() == es.len(),
        forall|i: int| 0 <= i < es.len() ==> terms_view(es)[i] == term_view(&es[i]),
    decreases es.len(),
{
    if es.len() > 0 {
        lemma_terms_view(es.subrange(1, es.len() as int));
    }
}

/// The source span of a core term; annotations span both sides.
pub open spec fn spec_term_span(t: &Term) -> Span
    decreases t,
{
    match t {
        Term::Ann(a, ty) => Span {
            start: if spec_term_span(a).start <= spec_term_span(ty).start {
                spec_term_span(a).start
            } else {
                spec_term_span(ty).start
            },
            end: if spec_term_span(a).end >= spec_term_span(ty).end {
                spec_term_span(a).end
            } else {
                spec_term_span(ty).end
            },
        },
        Term::Item(span, _) => *span,
        Term::Var(span, _, _) => *span,
        Term::Universe(span, _) => *span,
        Term::Prim(span, _) => *span,
        Term::BoolType(span) => *span,
        Term::IntType(span) => *span,
        Term::F32Type(span) => *span,
        Term::F64Type(span) => *span,
        Term::StringType(span) => *span,
        Term::BoolConst(span, _) => *span,
        Term::IntConst(span, _) => *span,
        Term::F32Const(span, _) => *span,
        Term::F64Const(span, _) => *span,
        Term::StringConst(span, _) => *span,
        Term::Cmp(span, _, _, _) => *span,
        Term::BoolElim(span, _, _, _) => *span,
        Term::ArrayType(span, _, _) => *span,
        Term::ArrayIntro(span, _) => *span,
        Term::RecordTypeNil(span) => *span,
        Term::RecordTypeCons(span, _, _, _) => *span,
        Term::RecordIntroNil(span) => *span,
        Term::RecordIntroCons(span, _, _, _) => *span,
        Term::Constrained(span, _, _, _) => *span,
        Term::Error(span) => *span,
    }
}

impl Term {
    /// The source span of a term. For annotations, the merge of the spans of
    /// the two sides.
    pub fn span(&self) -> (r: Span)
        ensures
            r == spec_term_span(self),
        decreases self,
    {
        match self {
            Term::Ann(t, ty) => Span::merge(t.span(), ty.span()),
            Term::Item(span, _) => *span,
            Term::Var(span, _, _) => *span,
            Term::Universe(span, _) => *span,
            Term::Prim(span, _) => *span,
            Term::BoolType(span) => *span,
            Term::IntType(span) => *span,
            Term::F32Type(span) => *span,
            Term::F64Type(span) => *span,
            Term::StringType(span) => *span,
            Term::BoolConst(span, _) => *span,
            Term::IntConst(span, _) => *span,
            Term::F32Const(span, _) => *span,
            Term::F64Const(span, _) => *span,
            Term::StringConst(span, _) => *span,
            Term::Cmp(span, _, _, _) => *span,
            Term::BoolElim(span, _, _, _) => *span,
            Term::ArrayType(span, _, _) => *span,
            Term::ArrayIntro(span, _) => *span,
            Term::RecordTypeNil(span) => *span,
            Term::RecordTypeCons(span, _, _, _) => *span,
            Term::RecordIntroNil(span) => *span,
            Term::RecordIntroCons(span, _, _, _) => *span,
            Term::Constrained(span, _, _, _) => *span,
            Term::Error(span) => *span,
        }
    }

    /// Structural equality modulo spans and binder labels: exactly equality
    /// of the mathematical models, which is alpha-equivalence.
    pub fn alpha_eq(&self, other: &Term) -> (r: bool)
        ensures
            r == (self@ == other@),
        decreases self,
    {
        match (self, other) {
            (Term::Item(_, a), Term::Item(_, b)) => string_eq(a, b),
            (Term::Var(_, i, _), Term::Var(_, j, _)) => i == j,
            (Term::Universe(_, a), Term::Universe(_, b)) => a == b,
            (Term::Prim(_, a), Term::Prim(_, b)) => a == b,
            (Term::BoolType(_), Term::BoolType(_)) => true,
            (Term::IntType(_), Term::IntType(_)) => true,
            (Term::F32Type(_), Term::F32Type(_)) => true,
            (Term::F64Type(_), Term::F64Type(_)) => true,
            (Term::StringType(_), Term::StringType(_)) => true,
            (Term::BoolConst(_, a), Term::BoolConst(_, b)) => a == b,
            (Term::IntConst(_, a), Term::IntConst(_, b)) => a.eq(b),
            (Term::F32Const(_, a), Term::F32Const(_, b)) => a == b,
            (Term::F64Const(_, a), Term::F64Const(_, b)) => a == b,
            (Term::StringConst(_, a), Term::StringConst(_, b)) => string_eq(a, b),
            (Term::Ann(t1, ty1), Term::Ann(t2, ty2)) => t1.alpha_eq(t2) && ty1.alpha_eq(ty2),
            (Term::Cmp(_, op1, a1, b1), Term::Cmp(_, op2, a2, b2)) => op1 == op2 && a1.alpha_eq(a2)
                && b1.alpha_eq(b2),
            (Term::BoolElim(_, c1, t1, f1), Term::BoolElim(_, c2, t2, f2)) => c1.alpha_eq(c2)
                && t1.alpha_eq(t2) && f1.alpha_eq(f2),
            (Term::ArrayType(_, l1, e1), Term::ArrayType(_, l2, e2)) => l1.alpha_eq(l2)
                && e1.alpha_eq(e2),
            (Term::ArrayIntro(_, es1), Term::ArrayIntro(_, es2)) => terms_alpha_eq(es1, es2),
            (Term::RecordTypeNil(_), Term::RecordTypeNil(_)) => true,
            (
                Term::RecordTypeCons(_, l1, ty1, r1),
                Term::RecordTypeCons(_, l2, ty2, r2),
            ) => string_eq(l1, l2) && ty1.alpha_eq(ty2) && r1.alpha_eq(r2),
            (Term::RecordIntroNil(_), Term::RecordIntroNil(_)) => true,
            (
                Term::RecordIntroCons(_, l1, v1, r1),
                Term::RecordIntroCons(_, l2, v2, r2),
            ) => string_eq(l1, l2) && v1.alpha_eq(v2) && r1.alpha_eq(r2),
            (
                Term::Constrained(_, ty1, _, p1),
                Term::Constrained(_, ty2, _, p2),
            ) => ty1.alpha_eq(ty2) && p1.alpha_eq(p2),
            (Term::Error(_), Term::Error(_)) => true,
            _ => {
                proof {
                    assert(self@ != other@);
                }
                false
            },
        }
    }
}

/// Equality of the character sequences of two strings.
pub fn string_eq(a: &String, b: &String) -> (r: bool)
    ensures
        r == (a@ == b@),
{
    a.eq(b)
}

/// Elementwise alpha-equality of two term vectors.
fn terms_alpha_eq(a: &Vec<Term>, b: &Vec<Term>) -> (r: bool)
    ensures
        r == (terms_view(a@) == terms_view(b@)),
    decreases a,
{
    proof {
        lemma_terms_view(a@);
        lemma_terms_view(b@);
    }
    if a.len() != b.len() {
        proof {
            assert(terms_view(a@).len() != terms_view(b@).len());
        }
        return false;
    }
    let mut i: usize = 0;
    while i < a.len()
        invariant
            i <= a.len(),
            a@.len() == b@.len(),
            forall|j: int| 0 <= j < i ==> term_view(&a@[j]) == term_view(&b@[j]),
        decreases a.len() - i,
    {
        proof {
            assert(decreases_to!(a@ => a@[i as int]));
        }
        if !a[i].alpha_eq(&b[i]) {
            proof {
                lemma_terms_view(a@);
                lemma_terms_view(b@);
                assert(terms_view(a@)[i as int] != terms_view(b@)[i as int]);
            }
            return false;
        }
        i = i + 1;
    }
    proof {
        lemma_terms_view(a@);
        lemma_terms_view(b@);
        assert(terms_view(a@) =~= terms_view(b@));
    }
    true
}

impl Clone for Term {
    #[verifier::loop_isolation(false)]
    fn clone(&self) -> (r: Self)
        ensures
            r@ == self@,
        decreases self,
    {
        match self {
            Term::Item(span, n) => Term::Item(*span, n.clone()),
            Term::Var(span, i, l) => Term::Var(*span, *i, l.clone()),
            Term::Universe(span, u) => Term::Universe(*span, *u),
            Term::Prim(span, c) => Term::Prim(*span, *c),
            Term::BoolType(span) => Term::BoolType(*span),
            Term::IntType(span) => Term::IntType(*span),
            Term::F32Type(span) => Term::F32Type(*span),
            Term::F64Type(span) => Term::F64Type(*span),
            Term::StringType(span) => Term::StringType(*span),
            Term::BoolConst(span, b) => Term::BoolConst(*span, *b),
            Term::IntConst(span, n) => Term::IntConst(*span, n.clone()),
            Term::F32Const(span, b) => Term::F32Const(*span, *b),
            Term::F64Const(span, b) => Term::F64Const(*span, *b),
            Term::StringConst(span, s) => Term::StringConst(*span, s.clone()),
            Term::Ann(t, ty) => Term::Ann(Box::new((**t).clone()), Box::new((**ty).clone())),
            Term::Cmp(span, op, a, b) => Term::Cmp(
                *span,
                *op,
                Box::new((**a).clone()),
                Box::new((**b).clone()),
            ),
            Term::BoolElim(span, c, t, f) => Term::BoolElim(
                *span,
                Box::new((**c).clone()),
                Box::new((**t).clone()),
                Box::new((**f).clone()),
            ),
            Term::ArrayType(span, l, e) => Term::ArrayType(
                *span,
                Box::new((**l).clone()),
                Box::new((**e).clone()),
            ),
            Term::ArrayIntro(span, es) => {
                let mut out: Vec<Term> = Vec::new();
                let mut i: usize = 0;
                while i < es.len()
                    invariant
                        i <= es.len(),
                        out@.len() == i,
                        forall|j: int| 0 <= j < i ==> out@[j]@ == es@[j]@,
                    decreases es.len() - i,
                {
                    proof {
                        assert(decreases_to!(*es => es@));
                        assert(decreases_to!(es@ => es@[i as int]));
                    }
                    out.push(es[i].clone());
                    i = i + 1;
                }
                proof {
                    lemma_terms_view(out@);
                    lemma_terms_view(es@);
                    assert(terms_view(out@) =~= terms_view(es@));
                }
                Term::ArrayIntro(*span, out)
            },
            Term::RecordTypeNil(span) => Term::RecordTypeNil(*span),
            Term::RecordTypeCons(span, l, ty, rest) => Term::RecordTypeCons(
                *span,
                l.clone(),
                Box::new((**ty).clone()),
                Box::new((**rest).clone()),
            ),
            Term::RecordIntroNil(span) => Term::RecordIntroNil(*span),
            Term::RecordIntroCons(span, l, v, rest) => Term::RecordIntroCons(
                *span,
                l.clone(),
                Box::new((**v).clone()),
                Box::new((**rest).clone()),
            ),
            Term::Constrained(span, ty, l, pred) => Term::Constrained(
                *span,
                Box::new((**ty).clone()),
                l.clone(),
                Box::new((**pred).clone()),
            ),
            Term::Error(span) => Term::Error(*span),
        }
    }
}

/// The number of record-type constructors in a term. Parsed values contain
/// none, and normalisation cannot increase the count when the environment
/// holds none; the format interpreter's termination rests on this measure.
pub open spec fn record_type_count(t: SpecTerm) -> nat
    decreases t,
{
    match t {
        SpecTerm::Ann(a, b) => record_type_count(*a) + record_type_count(*b),
        SpecTerm::Cmp(_, a, b) => record_type_count(*a) + record_type_count(*b),
        SpecTerm::BoolElim(c, a, b) => record_type_count(*c) + record_type_count(*a)
            + record_type_count(*b),
        SpecTerm::ArrayType(a, b) => record_type_count(*a) + record_type_count(*b),
        SpecTerm::ArrayIntro(es) => record_type_count_seq(es),
        SpecTerm::RecordTypeNil => 0,
        SpecTerm::RecordTypeCons(_, a, b) => 1 + record_type_count(*a) + record_type_count(*b),
        SpecTerm::RecordIntroCons(_, a, b) => record_type_count(*a) + record_type_count(*b),
        SpecTerm::Constrained(a, b) => record_type_count(*a) + record_type_count(*b),
        _ => 0,
    }
}

/// The sum of [`record_type_count`] over a sequence of terms.
pub open spec fn record_type_count_seq(es: Seq<SpecTerm>) -> nat
    decreases es,
{
    if es.len() == 0 {
        0
    } else {
        record_type_count(es[0]) + record_type_count_seq(es.subrange(1, es.len() as int))
    }
}

/// All bound variables point below depth `n`.
pub open spec fn scoped(t: SpecTerm, n: nat) -> bool
    decreases t,
{
    match t {
        SpecTerm::Var(i) => i < n,
        SpecTerm::Ann(a, b) => scoped(*a, n) && scoped(*b, n),
        SpecTerm::Cmp(_, a, b) => scoped(*a, n) && scoped(*b, n),
        SpecTerm::BoolElim(c, a, b) => scoped(*c, n) && scoped(*a, n) && scoped(*b, n),
        SpecTerm::ArrayType(a, b) => scoped(*a, n) && scoped(*b, n),
        SpecTerm::ArrayIntro(es) => forall|i: int| 0 <= i < es.len() ==> scoped(#[trigger] es[i], n),
        SpecTerm::RecordTypeCons(_, a, b) => scoped(*a, n) && scoped(*b, n + 1),
        SpecTerm::RecordIntroCons(_, a, b) => scoped(*a, n) && scoped(*b, n),
        SpecTerm::Constrained(a, b) => scoped(*a, n) && scoped(*b, n + 1),
        _ => true,
    }
}

/// A term with no free variables at all.
pub open spec fn closed(t: SpecTerm) -> bool {
    scoped(t, 0)
}

/// The cutoff one binder deeper; it saturates at the deepest representable
/// depth, as indices do.
pub open spec fn cutoff_inc(c: nat) -> nat {
    if c + 1 <= usize::MAX as nat {
        c + 1
    } else {
        c
    }
}

/// Shifts free variable indices at or above `c` up by `d`. An index that
/// would not fit the machine saturates; such an index is already beyond any
/// bindable depth and stays an unbound variable.
pub open spec fn spec_shift(t: SpecTerm, d: nat, c: nat) -> SpecTerm
    decreases t,
{
    match t {
        SpecTerm::Var(i) => if i >= c {
            if i + d <= usize::MAX as nat {
                SpecTerm::Var((i + d) as nat)
            } else {
                SpecTerm::Var(usize::MAX as nat)
            }
        } else {
            SpecTerm::Var(i)
        },
        SpecTerm::Ann(a, b) => SpecTerm::Ann(
            Box::new(spec_shift(*a, d, c)),
            Box::new(spec_shift(*b, d, c)),
        ),
        SpecTerm::Cmp(op, a, b) => SpecTerm::Cmp(
            op,
            Box::new(spec_shift(*a, d, c)),
            Box::new(spec_shift(*b, d, c)),
        ),
        SpecTerm::BoolElim(x, a, b) => SpecTerm::BoolElim(
            Box::new(spec_shift(*x, d, c)),
            Box::new(spec_shift(*a, d, c)),
            Box::new(spec_shift(*b, d, c)),
        ),
        SpecTerm::ArrayType(a, b) => SpecTerm::ArrayType(
            Box::new(spec_shift(*a, d, c)),
            Box::new(spec_shift(*b, d, c)),
        ),
        SpecTerm::ArrayIntro(es) => SpecTerm::ArrayIntro(spec_shift_seq(es, d, c)),
        SpecTerm::RecordTypeCons(l, a, b) => SpecTerm::RecordTypeCons(
            l,
            Box::new(spec_shift(*a, d, c)),
            Box::new(spec_shift(*b, d, cutoff_inc(c))),
        ),
        SpecTerm::RecordIntroCons(l, a, b) => SpecTerm::RecordIntroCons(
            l,
            Box::new(spec_shift(*a, d, c)),
            Box::new(spec_shift(*b, d, c)),
        ),
        SpecTerm::Constrained(a, b) => SpecTerm::Constrained(
            Box::new(spec_shift(*a, d, c)),
            Box::new(spec_shift(*b, d, cutoff_inc(c))),
        ),
        _ => t,
    }
}

/// Elementwise [`spec_shift`].
pub open spec fn spec_shift_seq(es: Seq<SpecTerm>, d: nat, c: nat) -> Seq<SpecTerm>
    decreases es,
{
    if es.len() == 0 {
        Seq::empty()
    } else {
        seq![spec_shift(es[0], d, c)] + spec_shift_seq(es.subrange(1, es.len() as int), d, c)
    }
}

/// Shifts free variable indices at or above `c` up by `d`.
#[verifier::loop_isolation(false)]
pub fn shift(t: &Term, d: usize, c: usize) -> (r: Term)
    ensures
        term_view(&r) == spec_shift(term_view(t), d as nat, c as nat),
    decreases t,
{
    match t {
        Term::Var(span, i, label) => {
            if *i >= c {
                let shifted: usize = if *i <= usize::MAX - d {
                    *i + d
                } else {
                    usize::MAX
                };
                Term::Var(*span, shifted, label.clone())
            } else {
                Term::Var(*span, *i, label.clone())
            }
        },
        Term::Ann(a, b) => Term::Ann(Box::new(shift(a, d, c)), Box::new(shift(b, d, c))),
        Term::Cmp(span, op, a, b) => Term::Cmp(
            *span,
            *op,
            Box::new(shift(a, d, c)),
            Box::new(shift(b, d, c)),
        ),
        Term::BoolElim(span, x, a, b) => Term::BoolElim(
            *span,
            Box::new(shift(x, d, c)),
            Box::new(shift(a, d, c)),
            Box::new(shift(b, d, c)),
        ),
        Term::ArrayType(span, a, b) => Term::ArrayType(
            *span,
            Box::new(shift(a, d, c)),
            Box::new(shift(b, d, c)),
        ),
        Term::ArrayIntro(span, es) => {
            let ghost target = spec_shift_seq(terms_view(es@), d as nat, c as nat);
            proof {
                lemma_terms_view(es@);
                lemma_spec_shift_seq(terms_view(es@), d as nat, c as nat);
            }
            let mut out: Vec<Term> = Vec::new();
            let mut i: usize = 0;
            while i < es.len()
                invariant
                    i <= es.len(),
                    out@.len() == i,
                    forall|j: int| 0 <= j < i ==> term_view(&out@[j]) == target[j],
                decreases es.len() - i,
            {
                proof {
                    assert(decreases_to!(*es => es@));
                    assert(decreases_to!(es@ => es@[i as int]));
                }
                let ne = shift(&es[i], d, c);
                out.push(ne);
                i = i + 1;
            }
            proof {
                lemma_terms_view(out@);
                assert(terms_view(out@) =~= target);
            }
            Term::ArrayIntro(*span, out)
        },
        Term::RecordTypeCons(span, l, a, b) => {
            let sc: usize = if c < usize::MAX {
                c + 1
            } else {
                c
            };
            Term::RecordTypeCons(
                *span,
                l.clone(),
                Box::new(shift(a, d, c)),
                Box::new(shift(b, d, sc)),
            )
        },
        Term::RecordIntroCons(span, l, a, b) => Term::RecordIntroCons(
            *span,
            l.clone(),
            Box::new(shift(a, d, c)),
            Box::new(shift(b, d, c)),
        ),
        Term::Constrained(span, a, l, b) => {
            let sc: usize = if c < usize::MAX {
                c + 1
            } else {
                c
            };
            Term::Constrained(*span, Box::new(shift(a, d, c)), l.clone(), Box::new(shift(b, d, sc)))
        },
        Term::Item(span, n) => Term::Item(*span, n.clone()),
        Term::Universe(span, u) => Term::Universe(*span, *u),
        Term::Prim(span, tc) => Term::Prim(*span, *tc),
        Term::BoolType(span) => Term::BoolType(*span),
        Term::IntType(span) => Term::IntType(*span),
        Term::F32Type(span) => Term::F32Type(*span),
        Term::F64Type(span) => Term::F64Type(*span),
        Term::StringType(span) => Term::StringType(*span),
        Term::BoolConst(span, b) => Term::BoolConst(*span, *b),
        Term::IntConst(span, n) => Term::IntConst(*span, n.clone()),
        Term::F32Const(span, b) => Term::F32Const(*span, *b),
        Term::F64Const(span, b) => Term::F64Const(*span, *b),
        Term::StringConst(span, st) => Term::StringConst(*span, st.clone()),
        Term::RecordTypeNil(span) => Term::RecordTypeNil(*span),
        Term::RecordIntroNil(span) => Term::RecordIntroNil(*span),
        Term::Error(span) => Term::Error(*span),
    }
}

/// Pointwise reading of [`spec_shift_seq`].
pub proof fn lemma_spec_shift_seq(es: Seq<SpecTerm>, d: nat, c: nat)
    ensures
        spec_shift_seq(es, d, c).len() == es.len(),
        forall|i: int| 0 <= i < es.len() ==> spec_shift_seq(es, d, c)[i] == spec_shift(es[i], d, c),
    decreases es.len(),
{
    if es.len() > 0 {
        lemma_spec_shift_seq(es.subrange(1, es.len() as int), d, c);
    }
}

/// A field of a core struct item.
#[derive(Debug)]
pub struct TypeField {
    /// Doc comment lines, carried verbatim from the surface syntax.
    pub doc: Vec<String>,
    /// The field's label, with its source span.
    pub name: (Span, String),
    /// The field's elaborated type; it may mention the binders of the
    /// preceding fields.
    pub term: Term,
}

/// Model of a core struct field.
pub ghost struct SpecField {
    pub doc: Seq<Seq<char>>,
    pub label: Seq<char>,
    pub term: SpecTerm,
}

impl View for TypeField {
    type V = SpecField;

    open spec fn view(&self) -> SpecField {
        SpecField { doc: self.doc.deep_view(), label: self.name.1@, term: term_view(&self.term) }
    }
}

/// The models of a sequence of fields.
pub open spec fn fields_view(fs: Seq<TypeField>) -> Seq<SpecField> {
    Seq::new(fs.len(), |i: int| if 0 <= i < fs.len() { fs[i]@ } else { fs[0]@ })
}

/// A core alias definition.
#[derive(Debug)]
pub struct Alias {
    /// The full span of this definition.
    pub span: Span,
    /// Doc comment lines, carried verbatim from the surface syntax.
    pub doc: Vec<String>,
    /// The name of this definition.
    pub name: String,
    /// The elaborated body; annotated aliases keep their annotation.
    pub term: Term,
}

/// Model of a core alias.
pub ghost struct SpecAlias {
    pub doc: Seq<Seq<char>>,
    pub name: Seq<char>,
    pub term: SpecTerm,
}

impl View for Alias {
    type V = SpecAlias;

    open spec fn view(&self) -> SpecAlias {
        SpecAlias { doc: self.doc.deep_view(), name: self.name@, term: term_view(&self.term) }
    }
}

/// A core struct type definition.
#[derive(Debug)]
pub struct StructType {
    /// The full span of this definition.
    pub span: Span,
    /// Doc comment lines, carried verbatim from the surface syntax.
    pub doc: Vec<String>,
    /// The name of this definition.
    pub name: String,
    /// The fields, in order; field `i` may mention the binders of fields
    /// `0..i`.
    pub fields: Vec<TypeField>,
}

/// Model of a core struct item.
pub ghost struct SpecStructType {
    pub doc: Seq<Seq<char>>,
    pub name: Seq<char>,
    pub fields: Seq<SpecField>,
}

impl View for StructType {
    type V = SpecStructType;

    open spec fn view(&self) -> SpecStructType {
        SpecStructType {
            doc: self.doc.deep_view(),
            name: self.name@,
            fields: fields_view(self.fields@),
        }
    }
}

/// The dependent record type described by a sequence of fields.
pub open spec fn spec_record_type(fs: Seq<SpecField>) -> SpecTerm
    decreases fs,
{
    if fs.len() == 0 {
        SpecTerm::RecordTypeNil
    } else {
        SpecTerm::RecordTypeCons(
            fs[0].label,
            Box::new(fs[0].term),
            Box::new(spec_record_type(fs.subrange(1, fs.len() as int))),
        )
    }
}

impl StructType {
    /// The dependent record-type chain of this struct, ready for the format
    /// interpreter or the core checker.
    #[verifier::loop_isolation(false)]
    pub fn record_type(&self) -> (r: Term)
        ensures
            term_view(&r) == spec_record_type(fields_view(self.fields@)),
    {
        let ghost fv = fields_view(self.fields@);
        let mut acc = Term::RecordTypeNil(self.span);
        let mut i: usize = self.fields.len();
        proof {
            assert(fv.subrange(i as int, fv.len() as int) =~= Seq::<SpecField>::empty());
        }
        while i > 0
            invariant
                i <= self.fields.len(),
                term_view(&acc) == spec_record_type(fv.subrange(i as int, fv.len() as int)),
            decreases i,
        {
            let f = &self.fields[i - 1];
            acc = Term::RecordTypeCons(
                f.name.0,
                f.name.1.clone(),
                Box::new(f.term.clone()),
                Box::new(acc),
            );
            i = i - 1;
            proof {
                let suf = fv.subrange(i as int, fv.len() as int);
                assert(suf[0] == fv[i as int]);
                assert(suf.subrange(1, suf.len() as int) =~= fv.subrange(
                    i + 1,
                    fv.len() as int,
                ));
            }
        }
        proof {
            assert(fv.subrange(0, fv.len() as int) =~= fv);
        }
        acc
    }
}

/// Items in a core module.
#[derive(Debug)]
pub enum Item {
    /// An alias definition.
    Alias(Alias),
    /// A struct definition.
    Struct(StructType),
}

/// Model of a core item.
pub ghost enum SpecItem {
    Alias(SpecAlias),
    Struct(SpecStructType),
}

impl View for Item {
    type V = SpecItem;

    open spec fn view(&self) -> SpecItem {
        match self {
            Item::Alias(a) => SpecItem::Alias(a@),
            Item::Struct(s) => SpecItem::Struct(s@),
        }
    }
}

/// The doc lines of a core item's model.
pub open spec fn spec_item_doc(i: SpecItem) -> Seq<Seq<char>> {
    match i {
        SpecItem::Alias(a) => a.doc,
        SpecItem::Struct(s) => s.doc,
    }
}

/// The name of a core item's model.
pub open spec fn spec_item_name(i: SpecItem) -> Seq<char> {
    match i {
        SpecItem::Alias(a) => a.name,
        SpecItem::Struct(s) => s.name,
    }
}

/// A core module: the elaborated items, in declaration order.
#[derive(Debug)]
pub struct Module {
    /// The file in which this module was defined.
    pub file_id: u32,
    /// Doc comment lines attached to the module itself.
    pub doc: Vec<String>,
    /// The items in this module.
    pub items: Vec<Item>,
}

/// The models of a sequence of core items.
pub open spec fn items_view(items: Seq<Item>) -> Seq<SpecItem> {
    Seq::new(items.len(), |i: int| if 0 <= i < items.len() { items[i]@ } else { items[0]@ })
}

/// A term free of error sentinels.
pub open spec fn error_free(t: SpecTerm) -> bool
    decreases t,
{
    match t {
        SpecTerm::Error => false,
        SpecTerm::Ann(a, b) => error_free(*a) && error_free(*b),
        SpecTerm::Cmp(_, a, b) => error_free(*a) && error_free(*b),
        SpecTerm::BoolElim(c, a, b) => error_free(*c) && error_free(*a) && error_free(*b),
        SpecTerm::ArrayType(a, b) => error_free(*a) && error_free(*b),
        SpecTerm::ArrayIntro(es) => forall|i: int|
            0 <= i < es.len() ==> error_free(#[trigger] es[i]),
        SpecTerm::RecordTypeCons(_, a, b) => error_free(*a) && error_free(*b),
        SpecTerm::RecordIntroCons(_, a, b) => error_free(*a) && error_free(*b),
        SpecTerm::Constrained(a, b) => error_free(*a) && error_free(*b),
        _ => true,
    }
}

/// Shifting introduces no error sentinel.
pub proof fn lemma_shift_error_free(t: SpecTerm, d: nat, c: nat)
    requires
        error_free(t),
    ensures
        error_free(spec_shift(t, d, c)),
    decreases t,
{
    match t {
        SpecTerm::Ann(a, b) => {
            lemma_shift_error_free(*a, d, c);
            lemma_shift_error_free(*b, d, c);
        },
        SpecTerm::Cmp(_, a, b) => {
            lemma_shift_error_free(*a, d, c);
            lemma_shift_error_free(*b, d, c);
        },
        SpecTerm::BoolElim(x, a, b) => {
            lemma_shift_error_free(*x, d, c);
            lemma_shift_error_free(*a, d, c);
            lemma_shift_error_free(*b, d, c);
        },
        SpecTerm::ArrayType(a, b) => {
            lemma_shift_error_free(*a, d, c);
            lemma_shift_error_free(*b, d, c);
        },
        SpecTerm::ArrayIntro(es) => {
            lemma_spec_shift_seq(es, d, c);
            assert forall|i: int|
                0 <= i < es.len() implies error_free(#[trigger] spec_shift_seq(es, d, c)[i]) by {
                lemma_shift_error_free(es[i], d, c);
            }
        },
        SpecTerm::RecordTypeCons(_, a, b) => {
            lemma_shift_error_free(*a, d, c);
            lemma_shift_error_free(*b, d, cutoff_inc(c));
        },
        SpecTerm::RecordIntroCons(_, a, b) => {
            lemma_shift_error_free(*a, d, c);
            lemma_shift_error_free(*b, d, c);
        },
        SpecTerm::Constrained(a, b) => {
            lemma_shift_error_free(*a, d, c);
            lemma_shift_error_free(*b, d, cutoff_inc(c));
        },
        _ => {},
    }
}

} // verus!
