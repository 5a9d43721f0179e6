//! Type and kind checking for the core syntax.
//!
//! The checker re-derives the type of an already-elaborated core term, so a
//! core module can be validated on its own: `ty_of` synthesises the type of
//! a term under a context of binder types, `kind_of` reads off the universe
//! of a type, and `check_program` walks a module in item order, checking
//! every item under the items before it and rejecting duplicate names.

use vstd::prelude::*;

use crate::ast::{
    fields_view, shift, spec_shift, term_view, Item, Module, SpecField, SpecItem, SpecTerm, Term,
    TypeConst, Universe,
};
use crate::semantics::{
    env_view, genv_view, lookup_item, normalize, spec_lookup_item, spec_normalize, EnvEntry,
    ItemEntry, SpecEnvEntry, SpecItemEntry,
};
use crate::span::Span;

verus! {

broadcast use vstd::seq::group_seq_axioms, vstd::std_specs::vec::group_vec_axioms;

/// An error of the core checker: the named item is not well formed.
#[derive(Debug)]
pub enum KindError {
    IllFormedItem { name: String },
}

/// An environment of `n` rigid binders, as a model.
pub open spec fn rigid_seq(n: nat) -> Seq<SpecEnvEntry> {
    Seq::new(n, |i: int| SpecEnvEntry::Rigid)
}

/// The host representation of a normal format: the type of a value parsed
/// from it. A constrained format parses to a value of its base format.
pub open spec fn spec_repr(t: SpecTerm) -> SpecTerm
    decreases t,
{
    match t {
        SpecTerm::Prim(TypeConst::U(_, _)) => SpecTerm::IntType,
        SpecTerm::Prim(TypeConst::S(_, _)) => SpecTerm::IntType,
        SpecTerm::Prim(TypeConst::F(n, _)) => if n == 4 {
            SpecTerm::F32Type
        } else if n == 8 {
            SpecTerm::F64Type
        } else {
            SpecTerm::Error
        },
        SpecTerm::Constrained(a, _) => spec_repr(*a),
        _ => SpecTerm::Error,
    }
}

/// The type a record-field binder stands for: the host representation of a
/// format field, or the field's own (normal) type where no primitive host
/// representation exists — an array or a struct reference — so that any use
/// of such a binder fails the surrounding checks rather than being silently
/// accepted; a host-typed field binds at its type directly.
pub open spec fn spec_binder_of(u: Option<SpecTerm>, na: SpecTerm) -> SpecTerm {
    if u == Some(SpecTerm::Universe(Universe::Format)) {
        let r = spec_repr(na);
        if r == SpecTerm::Error {
            na
        } else {
            r
        }
    } else {
        na
    }
}

/// The synthesised type of a core term under the binder types `lctx`
/// (outermost first), or `None` when the term is ill typed. Synthesised
/// types are in normal form, so type equality is alpha-equivalence.
pub open spec fn spec_ty_of(
    genv: Seq<SpecItemEntry>,
    lctx: Seq<SpecTerm>,
    t: SpecTerm,
) -> Option<SpecTerm>
    decreases t,
{
    match t {
        SpecTerm::Var(i) => if i < lctx.len() {
            Some(spec_shift(lctx[lctx.len() - 1 - i], i + 1, 0))
        } else {
            None
        },
        SpecTerm::Item(n) => match spec_lookup_item(genv, n) {
            Some(e) => Some(e.ty),
            None => None,
        },
        SpecTerm::Universe(Universe::Type) => Some(SpecTerm::Universe(Universe::Kind)),
        SpecTerm::Universe(Universe::Format) => Some(SpecTerm::Universe(Universe::Kind)),
        SpecTerm::Universe(Universe::Kind) => None,
        SpecTerm::Prim(_) => Some(SpecTerm::Universe(Universe::Format)),
        SpecTerm::BoolType => Some(SpecTerm::Universe(Universe::Type)),
        SpecTerm::IntType => Some(SpecTerm::Universe(Universe::Type)),
        SpecTerm::F32Type => Some(SpecTerm::Universe(Universe::Type)),
        SpecTerm::F64Type => Some(SpecTerm::Universe(Universe::Type)),
        SpecTerm::StringType => Some(SpecTerm::Universe(Universe::Type)),
        SpecTerm::BoolConst(_) => Some(SpecTerm::BoolType),
        SpecTerm::IntConst(_) => Some(SpecTerm::IntType),
        SpecTerm::F32Const(_) => Some(SpecTerm::F32Type),
        SpecTerm::F64Const(_) => Some(SpecTerm::F64Type),
        SpecTerm::StringConst(_) => Some(SpecTerm::StringType),
        SpecTerm::Ann(a, ty) => match spec_ty_of(genv, lctx, *ty) {
            Some(SpecTerm::Universe(_)) => {
                let tau = spec_normalize(genv, rigid_seq(lctx.len()), *ty);
                if spec_ty_of(genv, lctx, *a) == Some(tau) {
                    Some(tau)
                } else {
                    None
                }
            },
            _ => None,
        },
        SpecTerm::Cmp(_, a, b) => if spec_ty_of(genv, lctx, *a) == Some(SpecTerm::IntType)
            && spec_ty_of(genv, lctx, *b) == Some(SpecTerm::IntType) {
            Some(SpecTerm::BoolType)
        } else {
            None
        },
        SpecTerm::BoolElim(c, a, b) => if spec_ty_of(genv, lctx, *c) == Some(SpecTerm::BoolType) {
            match spec_ty_of(genv, lctx, *a) {
                Some(tau) => if spec_ty_of(genv, lctx, *b) == Some(tau) {
                    Some(tau)
                } else {
                    None
                },
                None => None,
            }
        } else {
            None
        },
        SpecTerm::ArrayType(l, e) => if spec_ty_of(genv, lctx, *l) == Some(SpecTerm::IntType)
            && spec_ty_of(genv, lctx, *e) == Some(SpecTerm::Universe(Universe::Format)) {
            Some(SpecTerm::Universe(Universe::Format))
        } else {
            None
        },
        SpecTerm::RecordTypeNil => Some(SpecTerm::Universe(Universe::Format)),
        SpecTerm::RecordTypeCons(_, a, b) => {
            let ua = spec_ty_of(genv, lctx, *a);
            if ua == Some(SpecTerm::Universe(Universe::Type)) || ua == Some(
                SpecTerm::Universe(Universe::Format),
            ) {
                let na = spec_normalize(genv, rigid_seq(lctx.len()), *a);
                let binder = spec_binder_of(ua, na);
                if spec_ty_of(genv, lctx.push(binder), *b) == Some(
                    SpecTerm::Universe(Universe::Format),
                ) {
                    Some(SpecTerm::Universe(Universe::Format))
                } else {
                    None
                }
            } else {
                None
            }
        },
        SpecTerm::Constrained(a, b) => if spec_ty_of(genv, lctx, *a) == Some(
            SpecTerm::Universe(Universe::Format),
        ) {
            let na = spec_normalize(genv, rigid_seq(lctx.len()), *a);
            if spec_ty_of(genv, lctx.push(spec_repr(na)), *b) == Some(SpecTerm::BoolType) {
                Some(SpecTerm::Universe(Universe::Format))
            } else {
                None
            }
        } else {
            None
        },
        _ => None,
    }
}

/// Builds an executable rigid environment matching [`rigid_seq`].
fn make_rigid_env(n: usize) -> (r: Vec<EnvEntry>)
    ensures
        env_view(r@) == rigid_seq(n as nat),
{
    let mut r: Vec<EnvEntry> = Vec::new();
    let mut i: usize = 0;
    while i < n
        invariant
            i <= n,
            r@.len() == i,
            forall|j: int| 0 <= j < i ==> r@[j] is Rigid,
        decreases n - i,
    {
        r.push(EnvEntry::Rigid);
        i = i + 1;
    }
    proof {
        assert(env_view(r@) =~= rigid_seq(n as nat));
    }
    r
}

/// Synthesises the type of a core term under the binder types `lctx`,
/// returning it in normal form, or `None` when the term is ill typed. The
/// context is restored on return.
#[verifier::loop_isolation(false)]
pub fn ty_of(genv: &Vec<ItemEntry>, lctx: &mut Vec<Term>, t: &Term) -> (r: Option<Term>)
    ensures
        final(lctx)@ == old(lctx)@,
        match r {
            Some(ty) => spec_ty_of(genv_view(genv@), lctx_view(old(lctx)@), term_view(t)) == Some(
                term_view(&ty),
            ),
            None => spec_ty_of(genv_view(genv@), lctx_view(old(lctx)@), term_view(t)) is None,
        },
    decreases t,
{
    match t {
        Term::Var(span, i, _) => {
            if *i < lctx.len() {
                let slot: usize = lctx.len() - 1 - *i;
                proof {
                    assert(lctx_view(lctx@)[slot as int] == term_view(&lctx@[slot as int]));
                }
                Some(shift(&lctx[slot], *i + 1, 0))
            } else {
                None
            }
        },
        Term::Item(_, n) => {
            match lookup_item(genv, n) {
                Some(e) => Some(e.ty.clone()),
                None => None,
            }
        },
        Term::Universe(span, u) => {
            match u {
                Universe::Type => Some(Term::Universe(*span, Universe::Kind)),
                Universe::Format => Some(Term::Universe(*span, Universe::Kind)),
                Universe::Kind => None,
            }
        },
        Term::Prim(span, _) => Some(Term::Universe(*span, Universe::Format)),
        Term::BoolType(span) => Some(Term::Universe(*span, Universe::Type)),
        Term::IntType(span) => Some(Term::Universe(*span, Universe::Type)),
        Term::F32Type(span) => Some(Term::Universe(*span, Universe::Type)),
        Term::F64Type(span) => Some(Term::Universe(*span, Universe::Type)),
        Term::StringType(span) => Some(Term::Universe(*span, Universe::Type)),
        Term::BoolConst(span, _) => Some(Term::BoolType(*span)),
        Term::IntConst(span, _) => Some(Term::IntType(*span)),
        Term::F32Const(span, _) => Some(Term::F32Type(*span)),
        Term::F64Const(span, _) => Some(Term::F64Type(*span)),
        Term::StringConst(span, _) => Some(Term::StringType(*span)),
        Term::Ann(a, ty) => {
            match ty_of(genv, lctx, ty) {
                Some(u) => {
                    let is_universe: bool = matches!(&u, Term::Universe(_, _));
                    if is_universe {
                        let mut renv = make_rigid_env(lctx.len());
                        let tau = normalize(genv, &mut renv, ty);
                        match ty_of(genv, lctx, a) {
                            Some(ta) => {
                                if ta.alpha_eq(&tau) {
                                    Some(tau)
                                } else {
                                    None
                                }
                            },
                            None => None,
                        }
                    } else {
                        None
                    }
                },
                None => None,
            }
        },
        Term::Cmp(_, _, a, b) => {
            let ua = ty_of(genv, lctx, a);
            let ub = ty_of(genv, lctx, b);
            match (ua, ub) {
                (Some(x), Some(y)) => {
                    if matches!(&x, Term::IntType(_)) && matches!(&y, Term::IntType(_)) {
                        Some(Term::BoolType(t.span()))
                    } else {
                        None
                    }
                },
                _ => None,
            }
        },
        Term::BoolElim(span, c, a, b) => {
            match ty_of(genv, lctx, c) {
                Some(uc) => {
                    if matches!(&uc, Term::BoolType(_)) {
                        match ty_of(genv, lctx, a) {
                            Some(ta) => {
                                match ty_of(genv, lctx, b) {
                                    Some(tb) => {
                                        if tb.alpha_eq(&ta) {
                                            Some(ta)
                                        } else {
                                            None
                                        }
                                    },
                                    None => None,
                                }
                            },
                            None => None,
                        }
                    } else {
                        None
                    }
                },
                None => None,
            }
        },
        Term::ArrayType(span, l, e) => {
            let ul = ty_of(genv, lctx, l);
            let ue = ty_of(genv, lctx, e);
            match (ul, ue) {
                (Some(x), Some(y)) => {
                    if matches!(&x, Term::IntType(_)) && matches!(
                        &y,
                        Term::Universe(_, Universe::Format),
                    ) {
                        Some(Term::Universe(*span, Universe::Format))
                    } else {
                        None
                    }
                },
                _ => None,
            }
        },
        Term::RecordTypeNil(span) => Some(Term::Universe(*span, Universe::Format)),
        Term::RecordTypeCons(span, _, a, b) => {
            match ty_of(genv, lctx, a) {
                Some(ua) => {
                    let arm_ok: bool = matches!(&ua, Term::Universe(_, Universe::Type))
                        || matches!(&ua, Term::Universe(_, Universe::Format));
                    if arm_ok {
                        let mut renv = make_rigid_env(lctx.len());
                        let na = normalize(genv, &mut renv, a);
                        let binder: Term = if matches!(&ua, Term::Universe(_, Universe::Format)) {
                            let h = repr_of(*span, &na);
                            if matches!(&h, Term::Error(_)) {
                                na
                            } else {
                                h
                            }
                        } else {
                            na
                        };
                        lctx.push(binder);
                        proof {
                            let sna = spec_normalize(
                                genv_view(genv@),
                                rigid_seq(old(lctx)@.len() as nat),
                                term_view(&**a),
                            );
                            let sbinder = spec_binder_of(
                                spec_ty_of(
                                    genv_view(genv@),
                                    lctx_view(old(lctx)@),
                                    term_view(&**a),
                                ),
                                sna,
                            );
                            assert(lctx_view(lctx@) =~= lctx_view(old(lctx)@).push(sbinder));
                        }
                        let ub = ty_of(genv, lctx, b);
                        let _ = lctx.pop();
                        proof {
                            assert(lctx@ =~= old(lctx)@);
                        }
                        match ub {
                            Some(x) => {
                                if matches!(&x, Term::Universe(_, Universe::Format)) {
                                    Some(Term::Universe(*span, Universe::Format))
                                } else {
                                    None
                                }
                            },
                            None => None,
                        }
                    } else {
                        None
                    }
                },
                None => None,
            }
        },
        Term::Constrained(span, a, _, b) => {
            match ty_of(genv, lctx, a) {
                Some(ua) => {
                    if matches!(&ua, Term::Universe(_, Universe::Format)) {
                        let mut renv = make_rigid_env(lctx.len());
                        let na = normalize(genv, &mut renv, a);
                        let host = repr_of(*span, &na);
                        lctx.push(host);
                        proof {
                            assert(lctx_view(lctx@) =~= lctx_view(old(lctx)@).push(
                                spec_repr(
                                    spec_normalize(
                                        genv_view(genv@),
                                        rigid_seq(old(lctx)@.len() as nat),
                                        term_view(&**a),
                                    ),
                                ),
                            ));
                        }
                        let ub = ty_of(genv, lctx, b);
                        let _ = lctx.pop();
                        proof {
                            assert(lctx@ =~= old(lctx)@);
                        }
                        match ub {
                            Some(x) => {
                                if matches!(&x, Term::BoolType(_)) {
                                    Some(Term::Universe(*span, Universe::Format))
                                } else {
                                    None
                                }
                            },
                            None => None,
                        }
                    } else {
                        None
                    }
                },
                None => None,
            }
        },
        _ => None,
    }
}

/// The models of a context of binder types.
pub open spec fn lctx_view(l: Seq<Term>) -> Seq<SpecTerm> {
    Seq::new(l.len(), |i: int| if 0 <= i < l.len() { term_view(&l[i]) } else { SpecTerm::Error })
}

/// The executable [`spec_repr`].
fn repr_of(span: Span, t: &Term) -> (r: Term)
    ensures
        term_view(&r) == spec_repr(term_view(t)),
    decreases t,
{
    match t {
        Term::Prim(_, TypeConst::U(_, _)) => Term::IntType(span),
        Term::Prim(_, TypeConst::S(_, _)) => Term::IntType(span),
        Term::Prim(_, TypeConst::F(n, _)) => {
            if *n == 4 {
                Term::F32Type(span)
            } else if *n == 8 {
                Term::F64Type(span)
            } else {
                Term::Error(span)
            }
        },
        Term::Constrained(_, base, _, _) => repr_of(span, base),
        _ => Term::Error(span),
    }
}

/// The universe of a core type under the binder types `lctx`: `Type` for
/// host types, `Format` for formats, `Kind` for the two universes, or `None`
/// when the term is ill typed or no type at all.
pub fn kind_of(genv: &Vec<ItemEntry>, lctx: &mut Vec<Term>, t: &Term) -> (r: Option<Universe>)
    ensures
        final(lctx)@ == old(lctx)@,
        match r {
            Some(u) => spec_ty_of(genv_view(genv@), lctx_view(old(lctx)@), term_view(t)) == Some(
                SpecTerm::Universe(u),
            ),
            None => !(spec_ty_of(genv_view(genv@), lctx_view(old(lctx)@), term_view(t)) matches Some(
                SpecTerm::Universe(_),
            )),
        },
{
    match ty_of(genv, lctx, t) {
        Some(ty) => {
            match &ty {
                Term::Universe(_, u) => Some(*u),
                _ => None,
            }
        },
        None => None,
    }
}

/// The name of the first item, in declaration order, that is not well formed
/// under the items before it, if any.
pub open spec fn spec_first_ill_item(
    genv: Seq<SpecItemEntry>,
    items: Seq<SpecItem>,
) -> Option<Seq<char>>
    decreases items.len(),
{
    if items.len() == 0 {
        None
    } else if !spec_item_ok(genv, items[0]) {
        Some(crate::ast::spec_item_name(items[0]))
    } else {
        spec_first_ill_item(
            genv.push(spec_item_entry(genv, items[0])),
            items.subrange(1, items.len() as int),
        )
    }
}

/// Whether every item of a core module is well formed under the items before
/// it: checked in item order, with the fields of a struct checked under the
/// binders of the fields before them, and item names pairwise distinct.
pub open spec fn spec_check_items(genv: Seq<SpecItemEntry>, items: Seq<SpecItem>) -> bool
    decreases items.len(),
{
    if items.len() == 0 {
        true
    } else {
        let ok = spec_item_ok(genv, items[0]);
        let genv2 = genv.push(spec_item_entry(genv, items[0]));
        ok && spec_check_items(genv2, items.subrange(1, items.len() as int))
    }
}

/// Whether one item is well formed under the items before it.
pub open spec fn spec_item_ok(genv: Seq<SpecItemEntry>, item: SpecItem) -> bool {
    match item {
        SpecItem::Alias(a) => spec_lookup_item(genv, a.name) is None && spec_ty_of(
            genv,
            Seq::empty(),
            a.term,
        ) is Some,
        SpecItem::Struct(s) => spec_lookup_item(genv, s.name) is None && spec_fields_ok(
            genv,
            Seq::empty(),
            s.fields,
        ),
    }
}

/// Whether each field's type lives in a universe inside `Kind`, under the
/// binders of the fields before it, with pairwise-distinct labels.
pub open spec fn spec_fields_ok(
    genv: Seq<SpecItemEntry>,
    lctx: Seq<SpecTerm>,
    fields: Seq<SpecField>,
) -> bool
    decreases fields.len(),
{
    if fields.len() == 0 {
        true
    } else {
        let u = spec_ty_of(genv, lctx, fields[0].term);
        let ok = (u == Some(SpecTerm::Universe(Universe::Type)) || u == Some(
            SpecTerm::Universe(Universe::Format),
        )) && (forall|j: int|
            1 <= j < fields.len() ==> (#[trigger] fields[j].label) != fields[0].label);
        let na = spec_normalize(genv, rigid_seq(lctx.len()), fields[0].term);
        let binder = spec_binder_of(u, na);
        ok && spec_fields_ok(genv, lctx.push(binder), fields.subrange(1, fields.len() as int))
    }
}

/// The environment entry an item binds for the items after it: its type, and
/// for aliases the reduced definition.
pub open spec fn spec_item_entry(genv: Seq<SpecItemEntry>, item: SpecItem) -> SpecItemEntry {
    match item {
        SpecItem::Alias(a) => SpecItemEntry {
            name: a.name,
            ty: match spec_ty_of(genv, Seq::empty(), a.term) {
                Some(ty) => ty,
                None => SpecTerm::Error,
            },
            def: Some(spec_normalize(genv, Seq::empty(), a.term)),
        },
        SpecItem::Struct(s) => SpecItemEntry {
            name: s.name,
            ty: SpecTerm::Universe(Universe::Format),
            def: None,
        },
    }
}

/// Whether the label of field `i` differs from every later field's label.
#[verifier::loop_isolation(false)]
fn label_fresh(fields: &Vec<crate::ast::TypeField>, i: usize) -> (r: bool)
    requires
        i < fields@.len(),
    ensures
        r == (forall|j: int|
            i < j < fields@.len() ==> (#[trigger] fields_view(fields@)[j].label) != fields_view(
                fields@,
            )[i as int].label),
{
    let n: usize = fields.len();
    let mut k: usize = i + 1;
    while k < n
        invariant
            i < k <= fields@.len(),
            forall|j: int|
                i < j < k ==> (#[trigger] fields_view(fields@)[j].label) != fields_view(
                    fields@,
                )[i as int].label,
        decreases fields@.len() - k,
    {
        if crate::ast::string_eq(&fields[k].name.1, &fields[i].name.1) {
            proof {
                assert(fields_view(fields@)[k as int].label == fields@[k as int].name.1@);
                assert(fields_view(fields@)[i as int].label == fields@[i as int].name.1@);
            }
            return false;
        }
        proof {
            assert(fields_view(fields@)[k as int].label == fields@[k as int].name.1@);
            assert(fields_view(fields@)[i as int].label == fields@[i as int].name.1@);
        }
        k = k + 1;
    }
    true
}

/// Checks the fields of a struct item in order, each under the binders of
/// the fields before it.
#[verifier::loop_isolation(false)]
fn check_fields(genv: &Vec<ItemEntry>, fields: &Vec<crate::ast::TypeField>) -> (r: bool)
    ensures
        r == spec_fields_ok(genv_view(genv@), Seq::empty(), fields_view(fields@)),
{
    let ghost fv = fields_view(fields@);
    let mut lctx: Vec<Term> = Vec::new();
    let mut fi: usize = 0;
    proof {
        assert(lctx_view(lctx@) =~= Seq::<SpecTerm>::empty());
        assert(fv.subrange(0, fv.len() as int) =~= fv);
    }
    while fi < fields.len()
        invariant
            fi <= fields@.len(),
            lctx@.len() == fi,
            spec_fields_ok(genv_view(genv@), Seq::empty(), fv) <==> spec_fields_ok(
                genv_view(genv@),
                lctx_view(lctx@),
                fv.subrange(fi as int, fv.len() as int),
            ),
        decreases fields@.len() - fi,
    {
        let ghost suf = fv.subrange(fi as int, fv.len() as int);
        proof {
            assert(suf[0] == fv[fi as int]);
            assert(fv[fi as int] == fields@[fi as int]@);
            assert(suf.subrange(1, suf.len() as int) =~= fv.subrange(
                fi + 1,
                fv.len() as int,
            ));
        }
        let fresh = label_fresh(fields, fi);
        proof {
            if fresh {
                assert forall|j: int| 1 <= j < suf.len() implies (#[trigger] suf[j].label)
                    != suf[0].label by {
                    assert(suf[j] == fv[fi + j]);
                }
            } else {
                assert(exists|j: int|
                    fi < j < fv.len() && (#[trigger] fv[j].label) == fv[fi as int].label);
                let j = choose|j: int|
                    fi < j < fv.len() && (#[trigger] fv[j].label) == fv[fi as int].label;
                assert(suf[j - fi] == fv[j]);
                assert(!spec_fields_ok(genv_view(genv@), lctx_view(lctx@), suf));
            }
        }
        if !fresh {
            return false;
        }
        let f = &fields[fi];
        let mut ulctx = lctx;
        let u = ty_of(genv, &mut ulctx, &f.term);
        lctx = ulctx;
        let kind_ok: bool = match &u {
            Some(x) => matches!(x, Term::Universe(_, Universe::Type)) || matches!(
                x,
                Term::Universe(_, Universe::Format),
            ),
            None => false,
        };
        if !kind_ok {
            proof {
                assert(!spec_fields_ok(genv_view(genv@), lctx_view(lctx@), suf));
            }
            return false;
        }
        let ghost lctx_pre = lctx_view(lctx@);
        let ghost g = genv_view(genv@);
        let ghost naspec = spec_normalize(g, rigid_seq(fi as nat), suf[0].term);
        let mut renv = make_rigid_env(lctx.len());
        let na = normalize(genv, &mut renv, &f.term);
        let binder: Term = match &u {
            Some(x) => {
                if matches!(x, Term::Universe(_, Universe::Format)) {
                    let h = repr_of(f.name.0, &na);
                    if matches!(&h, Term::Error(_)) {
                        na
                    } else {
                        h
                    }
                } else {
                    na
                }
            },
            None => na,
        };
        lctx.push(binder);
        proof {
            assert(suf[0].term == term_view(&f.term));
            let sbinder = spec_binder_of(spec_ty_of(g, lctx_pre, suf[0].term), naspec);
            assert(lctx_view(lctx@) =~= lctx_pre.push(sbinder));
            assert(spec_fields_ok(g, lctx_pre, suf) == spec_fields_ok(
                g,
                lctx_pre.push(sbinder),
                suf.subrange(1, suf.len() as int),
            ));
        }
        fi = fi + 1;
    }
    proof {
        assert(fv.subrange(fi as int, fv.len() as int) =~= Seq::<SpecField>::empty());
    }
    true
}

/// Checks every item of a core module under the items before it: an
/// elaborated module is accepted exactly when each alias body synthesises a
/// type, each struct field lives in a universe inside `Kind` with pairwise
/// distinct labels, and no two items share a name.
#[verifier::loop_isolation(false)]
pub fn check_program(m: &Module) -> (r: Result<(), KindError>)
    ensures
        r is Ok <==> spec_check_items(Seq::empty(), crate::ast::items_view(m.items@)),
        match r {
            Ok(_) => true,
            Err(KindError::IllFormedItem { name }) => spec_first_ill_item(
                Seq::empty(),
                crate::ast::items_view(m.items@),
            ) == Some(name@),
        },
{
    let ghost iv = crate::ast::items_view(m.items@);
    let mut genv: Vec<ItemEntry> = Vec::new();
    let mut idx: usize = 0;
    proof {
        assert(genv_view(genv@) =~= Seq::<SpecItemEntry>::empty());
        assert(iv.subrange(0, iv.len() as int) =~= iv);
    }
    while idx < m.items.len()
        invariant
            idx <= m.items@.len(),
            spec_check_items(Seq::empty(), iv) <==> spec_check_items(
                genv_view(genv@),
                iv.subrange(idx as int, iv.len() as int),
            ),
            spec_first_ill_item(Seq::empty(), iv) == spec_first_ill_item(
                genv_view(genv@),
                iv.subrange(idx as int, iv.len() as int),
            ),
        decreases m.items@.len() - idx,
    {
        let ghost suf = iv.subrange(idx as int, iv.len() as int);
        proof {
            assert(suf[0] == iv[idx as int]);
            assert(iv[idx as int] == m.items@[idx as int]@);
            assert(suf.subrange(1, suf.len() as int) =~= iv.subrange(
                idx + 1,
                iv.len() as int,
            ));
        }
        match &m.items[idx] {
            Item::Alias(a) => {
                match lookup_item(&genv, &a.name) {
                    Some(_) => {
                        proof {
                            assert(!spec_item_ok(genv_view(genv@), suf[0]));
                        }
                        return Err(KindError::IllFormedItem { name: a.name.clone() });
                    },
                    None => {},
                }
                let mut lctx: Vec<Term> = Vec::new();
                proof {
                    assert(lctx_view(lctx@) =~= Seq::<SpecTerm>::empty());
                }
                let ty = ty_of(&genv, &mut lctx, &a.term);
                match ty {
                    None => {
                        proof {
                            assert(!spec_item_ok(genv_view(genv@), suf[0]));
                        }
                        return Err(KindError::IllFormedItem { name: a.name.clone() });
                    },
                    Some(tau) => {
                        let mut renv: Vec<EnvEntry> = Vec::new();
                        let def = normalize(&genv, &mut renv, &a.term);
                        proof {
                            assert(env_view(Seq::<EnvEntry>::empty())
                                =~= Seq::<SpecEnvEntry>::empty());
                        }
                        let ghost genv_pre = genv_view(genv@);
                        genv.push(
                            ItemEntry {
                                span: a.span,
                                name: a.name.clone(),
                                ty: tau,
                                def: Some(def),
                            },
                        );
                        proof {
                            assert(genv_view(genv@) =~= genv_pre.push(
                                spec_item_entry(genv_pre, suf[0]),
                            ));
                        }
                    },
                }
            },
            Item::Struct(s) => {
                match lookup_item(&genv, &s.name) {
                    Some(_) => {
                        proof {
                            assert(!spec_item_ok(genv_view(genv@), suf[0]));
                        }
                        return Err(KindError::IllFormedItem { name: s.name.clone() });
                    },
                    None => {},
                }
                if !check_fields(&genv, &s.fields) {
                    proof {
                        assert(!spec_item_ok(genv_view(genv@), suf[0]));
                    }
                    return Err(KindError::IllFormedItem { name: s.name.clone() });
                }
                let ghost genv_pre = genv_view(genv@);
                genv.push(
                    ItemEntry {
                        span: s.span,
                        name: s.name.clone(),
                        ty: Term::Universe(s.span, Universe::Format),
                        def: None,
                    },
                );
                proof {
                    assert(genv_view(genv@) =~= genv_pre.push(
                        spec_item_entry(genv_pre, suf[0]),
                    ));
                }
            },
        }
        idx = idx + 1;
    }
    proof {
        assert(iv.subrange(idx as int, iv.len() as int) =~= Seq::<SpecItem>::empty());
    }
    Ok(())
}

/// The environment a core module binds: one entry per item, in order, with
/// each alias's synthesised type and reduced definition. This is what the
/// format interpreter needs to resolve item references while parsing.
#[verifier::loop_isolation(false)]
pub fn module_env(m: &Module) -> (r: Vec<ItemEntry>)
    ensures
        r@.len() == m.items@.len(),
        genv_view(r@) == spec_genv_fold(Seq::empty(), crate::ast::items_view(m.items@)),
{
    let ghost iv = crate::ast::items_view(m.items@);
    let mut genv: Vec<ItemEntry> = Vec::new();
    let mut idx: usize = 0;
    proof {
        assert(genv_view(genv@) =~= Seq::<SpecItemEntry>::empty());
        assert(iv.subrange(0, iv.len() as int) =~= iv);
    }
    while idx < m.items.len()
        invariant
            idx <= m.items@.len(),
            genv@.len() == idx,
            spec_genv_fold(Seq::empty(), iv) == spec_genv_fold(
                genv_view(genv@),
                iv.subrange(idx as int, iv.len() as int),
            ),
        decreases m.items@.len() - idx,
    {
        let ghost suf = iv.subrange(idx as int, iv.len() as int);
        let ghost genv_pre = genv_view(genv@);
        proof {
            assert(suf[0] == iv[idx as int]);
            assert(iv[idx as int] == m.items@[idx as int]@);
            assert(suf.subrange(1, suf.len() as int) =~= iv.subrange(idx + 1, iv.len() as int));
        }
        match &m.items[idx] {
            Item::Alias(a) => {
                let mut lctx: Vec<Term> = Vec::new();
                proof {
                    assert(lctx_view(lctx@) =~= Seq::<SpecTerm>::empty());
                }
                let tau: Term = match ty_of(&genv, &mut lctx, &a.term) {
                    Some(ty) => ty,
                    None => Term::Error(a.span),
                };
                let mut renv: Vec<EnvEntry> = Vec::new();
                let def = normalize(&genv, &mut renv, &a.term);
                proof {
                    assert(env_view(Seq::<EnvEntry>::empty()) =~= Seq::<SpecEnvEntry>::empty());
                }
                genv.push(
                    ItemEntry { span: a.span, name: a.name.clone(), ty: tau, def: Some(def) },
                );
            },
            Item::Struct(s) => {
                genv.push(
                    ItemEntry {
                        span: s.span,
                        name: s.name.clone(),
                        ty: Term::Universe(s.span, Universe::Format),
                        def: None,
                    },
                );
            },
        }
        proof {
            assert(genv@[genv@.len() - 1]@ == spec_item_entry(genv_pre, suf[0]));
            assert(genv_view(genv@) =~= genv_pre.push(spec_item_entry(genv_pre, suf[0])));
        }
        idx = idx + 1;
    }
    proof {
        assert(iv.subrange(idx as int, iv.len() as int) =~= Seq::<SpecItem>::empty());
    }
    genv
}

/// The item environment a module prefix binds, folding entries left to
/// right.
pub open spec fn spec_genv_fold(
    g0: Seq<SpecItemEntry>,
    items: Seq<SpecItem>,
) -> Seq<SpecItemEntry>
    decreases items.len(),
{
    if items.len() == 0 {
        g0
    } else {
        spec_genv_fold(
            g0.push(spec_item_entry(g0, items[0])),
            items.subrange(1, items.len() as int),
        )
    }
}

/// Checking a module one item longer checks the prefix and then the new item
/// under the prefix's environment.
pub proof fn lemma_check_items_push(g0: Seq<SpecItemEntry>, items: Seq<SpecItem>, it: SpecItem)
    ensures
        spec_check_items(g0, items.push(it)) == (spec_check_items(g0, items) && spec_item_ok(
            spec_genv_fold(g0, items),
            it,
        )),
    decreases items.len(),
{
    let p = items.push(it);
    if items.len() == 0 {
        assert(p[0] == it);
        assert(p.subrange(1, 1) =~= Seq::<SpecItem>::empty());
        assert(spec_check_items(g0.push(spec_item_entry(g0, it)), Seq::<SpecItem>::empty()));
        assert(spec_check_items(g0, p) == (spec_item_ok(g0, it) && spec_check_items(
            g0.push(spec_item_entry(g0, it)),
            p.subrange(1, 1),
        )));
        assert(spec_check_items(g0, Seq::<SpecItem>::empty()));
        assert(spec_genv_fold(g0, Seq::<SpecItem>::empty()) == g0);
    } else {
        assert(p[0] == items[0]);
        assert(p.subrange(1, p.len() as int) =~= items.subrange(1, items.len() as int).push(it));
        let g1 = g0.push(spec_item_entry(g0, items[0]));
        lemma_check_items_push(g1, items.subrange(1, items.len() as int), it);
        assert(spec_check_items(g0, p) == (spec_item_ok(g0, p[0]) && spec_check_items(
            g1,
            p.subrange(1, p.len() as int),
        )));
        assert(spec_check_items(g0, items) == (spec_item_ok(g0, items[0]) && spec_check_items(
            g1,
            items.subrange(1, items.len() as int),
        )));
        assert(spec_genv_fold(g0, items) == spec_genv_fold(
            g1,
            items.subrange(1, items.len() as int),
        ));
    }
}

/// Folding one more item extends the environment by that item's entry.
pub proof fn lemma_genv_fold_push(g0: Seq<SpecItemEntry>, items: Seq<SpecItem>, it: SpecItem)
    ensures
        spec_genv_fold(g0, items.push(it)) == spec_genv_fold(g0, items).push(
            spec_item_entry(spec_genv_fold(g0, items), it),
        ),
    decreases items.len(),
{
    let p = items.push(it);
    if items.len() == 0 {
        assert(p[0] == it);
        assert(p.subrange(1, 1) =~= Seq::<SpecItem>::empty());
        assert(spec_genv_fold(g0, p) == spec_genv_fold(
            g0.push(spec_item_entry(g0, it)),
            p.subrange(1, 1),
        ));
        assert(spec_genv_fold(g0, Seq::<SpecItem>::empty()) == g0);
    } else {
        assert(p[0] == items[0]);
        assert(p.subrange(1, p.len() as int) =~= items.subrange(1, items.len() as int).push(it));
        let g1 = g0.push(spec_item_entry(g0, items[0]));
        lemma_genv_fold_push(g1, items.subrange(1, items.len() as int), it);
        assert(spec_genv_fold(g0, p) == spec_genv_fold(g1, p.subrange(1, p.len() as int)));
        assert(spec_genv_fold(g0, items) == spec_genv_fold(
            g1,
            items.subrange(1, items.len() as int),
        ));
    }
}


/// The binder-type context a struct's fields accumulate, field by field.
pub open spec fn spec_fields_lctx(
    genv: Seq<SpecItemEntry>,
    lctx: Seq<SpecTerm>,
    fields: Seq<SpecField>,
) -> Seq<SpecTerm>
    decreases fields.len(),
{
    if fields.len() == 0 {
        lctx
    } else {
        let u = spec_ty_of(genv, lctx, fields[0].term);
        let na = spec_normalize(genv, rigid_seq(lctx.len()), fields[0].term);
        spec_fields_lctx(
            genv,
            lctx.push(spec_binder_of(u, na)),
            fields.subrange(1, fields.len() as int),
        )
    }
}

/// Fields are well formed when each one kind-checks under the binders of the
/// fields before it and the labels are pairwise distinct.
pub proof fn lemma_fields_ok_intro(
    genv: Seq<SpecItemEntry>,
    lctx: Seq<SpecTerm>,
    fields: Seq<SpecField>,
)
    requires
        forall|i: int|
            0 <= i < fields.len() ==> ({
                let u = spec_ty_of(
                    genv,
                    spec_fields_lctx(genv, lctx, fields.subrange(0, i)),
                    (#[trigger] fields[i]).term,
                );
                u == Some(SpecTerm::Universe(Universe::Type)) || u == Some(
                    SpecTerm::Universe(Universe::Format),
                )
            }),
        forall|i: int, j: int|
            0 <= i < j < fields.len() ==> (#[trigger] fields[i].label) != (
            #[trigger] fields[j].label),
    ensures
        spec_fields_ok(genv, lctx, fields),
    decreases fields.len(),
{
    if fields.len() > 0 {
        let rest = fields.subrange(1, fields.len() as int);
        assert(fields.subrange(0, 0) =~= Seq::<SpecField>::empty());
        assert(spec_fields_lctx(genv, lctx, fields.subrange(0, 0)) == lctx);
        let u0 = spec_ty_of(genv, lctx, fields[0].term);
        let na0 = spec_normalize(genv, rigid_seq(lctx.len()), fields[0].term);
        let lctx1 = lctx.push(spec_binder_of(u0, na0));
        assert forall|j: int| 1 <= j < fields.len() implies (#[trigger] fields[j].label)
            != fields[0].label by {
            assert(fields[0].label != fields[j].label);
        }
        assert forall|i: int|
            0 <= i < rest.len() implies ({
            let u = spec_ty_of(
                genv,
                spec_fields_lctx(genv, lctx1, rest.subrange(0, i)),
                (#[trigger] rest[i]).term,
            );
            u == Some(SpecTerm::Universe(Universe::Type)) || u == Some(
                SpecTerm::Universe(Universe::Format),
            )
        }) by {
            let pre = fields.subrange(0, i + 1);
            assert(pre[0] == fields[0]);
            assert(pre.subrange(1, pre.len() as int) =~= rest.subrange(0, i));
            assert(spec_fields_lctx(genv, lctx, pre) == spec_fields_lctx(
                genv,
                lctx1,
                rest.subrange(0, i),
            ));
            assert(rest[i] == fields[i + 1]);
        }
        assert forall|i: int, j: int|
            0 <= i < j < rest.len() implies (#[trigger] rest[i].label) != (
            #[trigger] rest[j].label) by {
            assert(rest[i] == fields[i + 1]);
            assert(rest[j] == fields[j + 1]);
        }
        lemma_fields_ok_intro(genv, lctx1, rest);
    }
}


/// The accumulated binder context after one more field.
pub proof fn lemma_fields_lctx_push(
    genv: Seq<SpecItemEntry>,
    lctx: Seq<SpecTerm>,
    fields: Seq<SpecField>,
    f: SpecField,
)
    ensures
        spec_fields_lctx(genv, lctx, fields).len() == lctx.len() + fields.len(),
        spec_fields_lctx(genv, lctx, fields.push(f)) == spec_fields_lctx(
            genv,
            lctx,
            fields,
        ).push(
            spec_binder_of(
                spec_ty_of(genv, spec_fields_lctx(genv, lctx, fields), f.term),
                spec_normalize(
                    genv,
                    rigid_seq(spec_fields_lctx(genv, lctx, fields).len()),
                    f.term,
                ),
            ),
        ),
    decreases fields.len(),
{
    let p = fields.push(f);
    if fields.len() == 0 {
        assert(p[0] == f);
        assert(p.subrange(1, 1) =~= Seq::<SpecField>::empty());
        assert(spec_fields_lctx(genv, lctx, fields) == lctx);
        let uf = spec_ty_of(genv, lctx, f.term);
        let naf = spec_normalize(genv, rigid_seq(lctx.len()), f.term);
        assert(spec_fields_lctx(genv, lctx, p) == spec_fields_lctx(
            genv,
            lctx.push(spec_binder_of(uf, naf)),
            p.subrange(1, 1),
        ));
        assert(spec_fields_lctx(
            genv,
            lctx.push(spec_binder_of(uf, naf)),
            Seq::<SpecField>::empty(),
        ) == lctx.push(spec_binder_of(uf, naf)));
    } else {
        assert(p[0] == fields[0]);
        assert(p.subrange(1, p.len() as int) =~= fields.subrange(
            1,
            fields.len() as int,
        ).push(f));
        let u0 = spec_ty_of(genv, lctx, fields[0].term);
        let na0 = spec_normalize(genv, rigid_seq(lctx.len()), fields[0].term);
        let lctx1 = lctx.push(spec_binder_of(u0, na0));
        lemma_fields_lctx_push(genv, lctx1, fields.subrange(1, fields.len() as int), f);
        assert(spec_fields_lctx(genv, lctx, fields) == spec_fields_lctx(
            genv,
            lctx1,
            fields.subrange(1, fields.len() as int),
        ));
        assert(spec_fields_lctx(genv, lctx, p) == spec_fields_lctx(
            genv,
            lctx1,
            fields.subrange(1, fields.len() as int).push(f),
        ));
    }
}

} // verus!
