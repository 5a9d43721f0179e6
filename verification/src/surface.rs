//! The surface syntax of the data description language.
//!
//! Surface modules come from an external lexer and parser, which hands the
//! library plain values: names, literals already decoded from their lexemes,
//! and spans. Numeric literals carry their decimal digits with unbounded
//! precision; float literals carry the exact bit pattern the lexer decoded,
//! at the width it decoded.

use vstd::prelude::*;

use crate::ast::CmpOp;
use crate::integer::Integer;
use crate::span::Span;

verus! {

/// The bit pattern of a float literal, at the width the lexer decoded.
#[derive(Debug, Clone, Copy, PartialEq, Eq, Structural)]
pub enum FloatBits {
    F32(u32),
    F64(u64),
}

/// A surface term.
#[derive(Debug)]
pub enum Term {
    /// A name: a local binder, a module item, or a built-in.
    Name(Span, String),
    /// A parenthesised term.
    Paren(Span, Box<Term>),
    /// An annotated term `term : type`.
    Ann(Box<Term>, Box<Term>),
    /// An integer literal.
    NumberLiteral(Span, Integer),
    /// A float literal, as the bit pattern the lexer decoded.
    FloatLiteral(Span, FloatBits),
    /// A string literal.
    StringLiteral(Span, String),
    /// A conditional `if c then t else f`.
    If(Span, Box<Term>, Box<Term>, Box<Term>),
    /// An application, such as `Array len U8`.
    App(Span, Box<Term>, Vec<Term>),
    /// A constrained type `{ x : ty | pred }`.
    Where(Span, Box<Term>, (Span, String), Box<Term>),
    /// An integer comparison, used in constraint predicates.
    Binop(Span, CmpOp, Box<Term>, Box<Term>),
    /// An error sentinel from parse recovery upstream.
    Error(Span),
}

/// The source span of a surface term; annotations span both sides.
pub open spec fn spec_span(t: &Term) -> Span
    decreases t,
{
    match t {
        Term::Ann(a, ty) => Span {
            start: if spec_span(a).start <= spec_span(ty).start {
                spec_span(a).start
            } else {
                spec_span(ty).start
            },
            end: if spec_span(a).end >= spec_span(ty).end {
                spec_span(a).end
            } else {
                spec_span(ty).end
            },
        },
        Term::Name(span, _) => *span,
        Term::Paren(span, _) => *span,
        Term::NumberLiteral(span, _) => *span,
        Term::FloatLiteral(span, _) => *span,
        Term::StringLiteral(span, _) => *span,
        Term::If(span, _, _, _) => *span,
        Term::App(span, _, _) => *span,
        Term::Where(span, _, _, _) => *span,
        Term::Binop(span, _, _, _) => *span,
        Term::Error(span) => *span,
    }
}

impl Term {
    /// The source span of a term. For annotations, the merge of the spans of
    /// the two sides.
    pub fn span(&self) -> (r: Span)
        ensures
            r == spec_span(self),
        decreases self,
    {
        match self {
            Term::Ann(t, ty) => Span::merge(t.span(), ty.span()),
            Term::Name(span, _) => *span,
            Term::Paren(span, _) => *span,
            Term::NumberLiteral(span, _) => *span,
            Term::FloatLiteral(span, _) => *span,
            Term::StringLiteral(span, _) => *span,
            Term::If(span, _, _, _) => *span,
            Term::App(span, _, _) => *span,
            Term::Where(span, _, _, _) => *span,
            Term::Binop(span, _, _, _) => *span,
            Term::Error(span) => *span,
        }
    }
}

/// A module of items.
#[derive(Debug)]
pub struct Module {
    /// The file in which this module was defined.
    pub file_id: u32,
    /// Doc comment lines attached to the module itself.
    pub doc: Vec<String>,
    /// The items in this module, in declaration order.
    pub items: Vec<Item>,
}

/// Items in a module.
#[derive(Debug)]
pub enum Item {
    /// Alias definitions: `alias <name> = <term>;`
    Alias(Alias),
    /// Struct definitions: `struct <name> { ... }`
    Struct(StructType),
}

/// An alias definition.
#[derive(Debug)]
pub struct Alias {
    /// The full span of this definition.
    pub span: Span,
    /// Doc comment lines.
    pub doc: Vec<String>,
    /// The name of this definition.
    pub name: (Span, String),
    /// An optional type annotation.
    pub ty: Option<Term>,
    /// The definition body.
    pub term: Term,
}

/// A struct type definition.
#[derive(Debug)]
pub struct StructType {
    /// The full span of this definition.
    pub span: Span,
    /// Doc comment lines.
    pub doc: Vec<String>,
    /// The name of this definition.
    pub name: (Span, String),
    /// The fields of the struct, in order.
    pub fields: Vec<TypeField>,
}

/// A field in a struct type definition.
#[derive(Debug)]
pub struct TypeField {
    pub doc: Vec<String>,
    pub name: (Span, String),
    pub term: Term,
}

/// The doc lines of a surface item.
pub open spec fn item_doc(i: &Item) -> Seq<Seq<char>> {
    match i {
        Item::Alias(a) => a.doc.deep_view(),
        Item::Struct(s) => s.doc.deep_view(),
    }
}

/// The name of a surface item.
pub open spec fn item_name(i: &Item) -> Seq<char> {
    match i {
        Item::Alias(a) => a.name.1@,
        Item::Struct(s) => s.name.1@,
    }
}

/// Whether a surface item is free of parse-error sentinels.
pub open spec fn item_error_free(i: &Item) -> bool {
    match i {
        Item::Alias(a) => term_error_free(&a.term) && match &a.ty {
            Some(t) => term_error_free(t),
            None => true,
        },
        Item::Struct(s) => forall|j: int|
            0 <= j < s.fields@.len() ==> term_error_free(&(#[trigger] s.fields@[j]).term),
    }
}

/// Whether a surface term is free of parse-error sentinels.
pub open spec fn term_error_free(t: &Term) -> bool
    decreases t,
{
    match t {
        Term::Name(_, _) => true,
        Term::Paren(_, inner) => term_error_free(inner),
        Term::Ann(a, b) => term_error_free(a) && term_error_free(b),
        Term::NumberLiteral(_, _) => true,
        Term::FloatLiteral(_, _) => true,
        Term::StringLiteral(_, _) => true,
        Term::If(_, c, a, b) => term_error_free(c) && term_error_free(a) && term_error_free(b),
        Term::App(_, f, args) => term_error_free(f) && args_error_free(args@),
        Term::Where(_, ty, _, pred) => term_error_free(ty) && term_error_free(pred),
        Term::Binop(_, _, a, b) => term_error_free(a) && term_error_free(b),
        Term::Error(_) => false,
    }
}

/// Whether a sequence of surface terms is free of parse-error sentinels.
pub open spec fn args_error_free(args: Seq<Term>) -> bool
    decreases args,
{
    if args.len() == 0 {
        true
    } else {
        term_error_free(&args[0]) && args_error_free(args.subrange(1, args.len() as int))
    }
}

} // verus!
