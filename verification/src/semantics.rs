//! The evaluator and normaliser.
//!
//! The calculus has no functions, so normalisation is structural: annotations
//! are erased, alias references unfold to their stored (already normal,
//! closed) definitions, boolean elimination and integer comparisons reduce on
//! constants, and everything else maps over its parts. Under a binder the
//! environment is extended with a rigid entry, so no index shifting is ever
//! needed; values bound during parsing are closed, so they can be dropped in
//! at any depth unchanged.

use vstd::prelude::*;

use crate::ast::{
    closed, record_type_count, record_type_count_seq, scoped, term_view, terms_view, SpecTerm,
    Term,
};
use crate::integer::int_wf;
use crate::span::Span;

verus! {

broadcast use vstd::seq::group_seq_axioms, vstd::std_specs::vec::group_vec_axioms;

/// One item of the global environment: the item's name, its (normal, closed)
/// type, and, for aliases, its (normal, closed) definition.
#[derive(Debug)]
pub struct ItemEntry {
    pub span: Span,
    pub name: String,
    pub ty: Term,
    pub def: Option<Term>,
}

/// Model of an [`ItemEntry`].
pub ghost struct SpecItemEntry {
    pub name: Seq<char>,
    pub ty: SpecTerm,
    pub def: Option<SpecTerm>,
}

impl View for ItemEntry {
    type V = SpecItemEntry;

    open spec fn view(&self) -> SpecItemEntry {
        SpecItemEntry {
            name: self.name@,
            ty: term_view(&self.ty),
            def: match &self.def {
                Some(d) => Some(term_view(d)),
                None => None,
            },
        }
    }
}

/// The models of a global environment, in item order.
pub open spec fn genv_view(g: Seq<ItemEntry>) -> Seq<SpecItemEntry> {
    Seq::new(g.len(), |i: int| if 0 <= i < g.len() { g[i]@ } else { g[0]@ })
}

/// One entry of the local environment: either a rigid binder (a variable
/// normalises to itself) or a closed value bound during parsing.
#[derive(Debug)]
pub enum EnvEntry {
    Rigid,
    Val(Term),
}

/// Model of an [`EnvEntry`].
pub ghost enum SpecEnvEntry {
    Rigid,
    Val(SpecTerm),
}

impl View for EnvEntry {
    type V = SpecEnvEntry;

    open spec fn view(&self) -> SpecEnvEntry {
        match self {
            EnvEntry::Rigid => SpecEnvEntry::Rigid,
            EnvEntry::Val(t) => SpecEnvEntry::Val(term_view(t)),
        }
    }
}

/// The models of a local environment, innermost binder last.
pub open spec fn env_view(e: Seq<EnvEntry>) -> Seq<SpecEnvEntry> {
    Seq::new(e.len(), |i: int| if 0 <= i < e.len() { e[i]@ } else { SpecEnvEntry::Rigid })
}

/// Looks a name up in the global environment; later items shadow earlier
/// ones.
pub open spec fn spec_lookup_item(g: Seq<SpecItemEntry>, name: Seq<char>) -> Option<SpecItemEntry>
    decreases g.len(),
{
    if g.len() == 0 {
        None
    } else if g[g.len() - 1].name == name {
        Some(g[g.len() - 1])
    } else {
        spec_lookup_item(g.subrange(0, g.len() - 1), name)
    }
}

/// The normal form of `t` under global environment `genv` and local
/// environment `env` (innermost binder last).
pub open spec fn spec_normalize(
    genv: Seq<SpecItemEntry>,
    env: Seq<SpecEnvEntry>,
    t: SpecTerm,
) -> SpecTerm
    decreases t,
{
    match t {
        SpecTerm::Var(i) => if i < env.len() {
            match env[env.len() - 1 - i] {
                SpecEnvEntry::Rigid => SpecTerm::Var(i),
                SpecEnvEntry::Val(v) => v,
            }
        } else {
            SpecTerm::Var(i)
        },
        SpecTerm::Item(n) => match spec_lookup_item(genv, n) {
            Some(e) => match e.def {
                Some(d) => d,
                None => SpecTerm::Item(n),
            },
            None => SpecTerm::Item(n),
        },
        SpecTerm::Ann(a, _) => spec_normalize(genv, env, *a),
        SpecTerm::BoolElim(c, a, b) => {
            let nc = spec_normalize(genv, env, *c);
            if nc == SpecTerm::BoolConst(true) {
                spec_normalize(genv, env, *a)
            } else if nc == SpecTerm::BoolConst(false) {
                spec_normalize(genv, env, *b)
            } else {
                SpecTerm::BoolElim(
                    Box::new(nc),
                    Box::new(spec_normalize(genv, env, *a)),
                    Box::new(spec_normalize(genv, env, *b)),
                )
            }
        },
        SpecTerm::Cmp(op, a, b) => {
            let na = spec_normalize(genv, env, *a);
            let nb = spec_normalize(genv, env, *b);
            match (na, nb) {
                (SpecTerm::IntConst(x), SpecTerm::IntConst(y)) => if int_wf(x) && int_wf(y) {
                    SpecTerm::BoolConst(crate::ast::spec_cmp_eval(op, x, y))
                } else {
                    SpecTerm::Cmp(
                        op,
                        Box::new(SpecTerm::IntConst(x)),
                        Box::new(SpecTerm::IntConst(y)),
                    )
                },
                (na2, nb2) => SpecTerm::Cmp(op, Box::new(na2), Box::new(nb2)),
            }
        },
        SpecTerm::ArrayType(l, e) => SpecTerm::ArrayType(
            Box::new(spec_normalize(genv, env, *l)),
            Box::new(spec_normalize(genv, env, *e)),
        ),
        SpecTerm::ArrayIntro(es) => SpecTerm::ArrayIntro(spec_normalize_seq(genv, env, es)),
        SpecTerm::RecordTypeCons(l, a, b) => SpecTerm::RecordTypeCons(
            l,
            Box::new(spec_normalize(genv, env, *a)),
            Box::new(spec_normalize(genv, env.push(SpecEnvEntry::Rigid), *b)),
        ),
        SpecTerm::RecordIntroCons(l, a, b) => SpecTerm::RecordIntroCons(
            l,
            Box::new(spec_normalize(genv, env, *a)),
            Box::new(spec_normalize(genv, env, *b)),
        ),
        SpecTerm::Constrained(a, b) => SpecTerm::Constrained(
            Box::new(spec_normalize(genv, env, *a)),
            Box::new(spec_normalize(genv, env.push(SpecEnvEntry::Rigid), *b)),
        ),
        _ => t,
    }
}

/// Elementwise normalisation of a sequence of terms.
pub open spec fn spec_normalize_seq(
    genv: Seq<SpecItemEntry>,
    env: Seq<SpecEnvEntry>,
    es: Seq<SpecTerm>,
) -> Seq<SpecTerm>
    decreases es,
{
    if es.len() == 0 {
        Seq::empty()
    } else {
        seq![spec_normalize(genv, env, es[0])] + spec_normalize_seq(
            genv,
            env,
            es.subrange(1, es.len() as int),
        )
    }
}

/// Pointwise reading of [`spec_normalize_seq`].
pub proof fn lemma_spec_normalize_seq(
    genv: Seq<SpecItemEntry>,
    env: Seq<SpecEnvEntry>,
    es: Seq<SpecTerm>,
)
    ensures
        spec_normalize_seq(genv, env, es).len() == es.len(),
        forall|i: int|
            0 <= i < es.len() ==> spec_normalize_seq(genv, env, es)[i] == spec_normalize(
                genv,
                env,
                es[i],
            ),
    decreases es.len(),
{
    if es.len() > 0 {
        lemma_spec_normalize_seq(genv, env, es.subrange(1, es.len() as int));
    }
}

/// Looks a name up among the elaborated items, most recent first.
pub fn lookup_item<'a>(genv: &'a Vec<ItemEntry>, name: &String) -> (r: Option<&'a ItemEntry>)
    ensures
        match r {
            Some(e) => spec_lookup_item(genv_view(genv@), name@) == Some(e@),
            None => spec_lookup_item(genv_view(genv@), name@) is None,
        },
{
    let ghost g = genv_view(genv@);
    proof {
        assert(g.subrange(0, g.len() as int) =~= g);
    }
    let mut i: usize = genv.len();
    while i > 0
        invariant
            i <= genv.len(),
            g == genv_view(genv@),
            g.len() == genv@.len(),
            spec_lookup_item(g, name@) == spec_lookup_item(g.subrange(0, i as int), name@),
        decreases i,
    {
        let ghost gpre = g.subrange(0, i as int);
        proof {
            assert(gpre.len() == i);
            assert(gpre[i - 1] == g[i - 1]);
            assert(gpre.subrange(0, i - 1) =~= g.subrange(0, i - 1));
        }
        if crate::ast::string_eq(&genv[i - 1].name, name) {
            return Some(&genv[i - 1]);
        }
        i = i - 1;
    }
    proof {
        assert(g.subrange(0, 0) =~= Seq::<SpecItemEntry>::empty());
    }
    None
}

/// Reduces `t` to its normal form. Annotations are erased, aliases unfold to
/// their stored definitions, `if` on a boolean constant takes the branch, and
/// comparisons of integer constants fold; stuck terms are rebuilt from their
/// normalised parts. The local environment is restored on return.
#[verifier::loop_isolation(false)]
pub fn normalize(genv: &Vec<ItemEntry>, env: &mut Vec<EnvEntry>, t: &Term) -> (r: Term)
    ensures
        final(env)@ == old(env)@,
        term_view(&r) == spec_normalize(genv_view(genv@), env_view(old(env)@), term_view(t)),
    decreases t,
{
    match t {
        Term::Var(span, i, label) => {
            let idx: usize = *i;
            if idx < env.len() {
                let slot: usize = env.len() - 1 - idx;
                proof {
                    assert(env_view(env@)[slot as int] == env@[slot as int]@);
                }
                match &env[slot] {
                    EnvEntry::Rigid => Term::Var(*span, *i, label.clone()),
                    EnvEntry::Val(v) => v.clone(),
                }
            } else {
                Term::Var(*span, *i, label.clone())
            }
        },
        Term::Item(span, n) => {
            match lookup_item(genv, n) {
                Some(e) => match &e.def {
                    Some(d) => d.clone(),
                    None => Term::Item(*span, n.clone()),
                },
                None => Term::Item(*span, n.clone()),
            }
        },
        Term::Ann(a, _) => normalize(genv, env, a),
        Term::BoolElim(span, c, a, b) => {
            let nc = normalize(genv, env, c);
            match &nc {
                Term::BoolConst(_, cv) => {
                    if *cv {
                        normalize(genv, env, a)
                    } else {
                        normalize(genv, env, b)
                    }
                },
                _ => {
                    let na = normalize(genv, env, a);
                    let nb = normalize(genv, env, b);
                    proof {
                        assert(term_view(&nc) != SpecTerm::BoolConst(true) && term_view(&nc)
                            != SpecTerm::BoolConst(false));
                    }
                    Term::BoolElim(*span, Box::new(nc), Box::new(na), Box::new(nb))
                },
            }
        },
        Term::Cmp(span, op, a, b) => {
            let na = normalize(genv, env, a);
            let nb = normalize(genv, env, b);
            let folded: Option<bool> = match (&na, &nb) {
                (Term::IntConst(_, x), Term::IntConst(_, y)) => {
                    if x.is_canonical() && y.is_canonical() {
                        Some(crate::ast::cmp_eval(*op, x, y))
                    } else {
                        None
                    }
                },
                _ => None,
            };
            match folded {
                Some(v) => Term::BoolConst(*span, v),
                None => Term::Cmp(*span, *op, Box::new(na), Box::new(nb)),
            }
        },
        Term::ArrayType(span, l, e) => {
            let nl = normalize(genv, env, l);
            let ne = normalize(genv, env, e);
            Term::ArrayType(*span, Box::new(nl), Box::new(ne))
        },
        Term::ArrayIntro(span, es) => {
            let ghost spec_out = spec_normalize_seq(
                genv_view(genv@),
                env_view(env@),
                terms_view(es@),
            );
            proof {
                lemma_spec_normalize_seq(genv_view(genv@), env_view(env@), terms_view(es@));
                crate::ast::lemma_terms_view(es@);
            }
            let mut out: Vec<Term> = Vec::new();
            let mut i: usize = 0;
            while i < es.len()
                invariant
                    i <= es.len(),
                    env@ == old(env)@,
                    out@.len() == i,
                    forall|j: int| 0 <= j < i ==> term_view(&out@[j]) == spec_out[j],
                decreases es.len() - i,
            {
                proof {
                    assert(decreases_to!(*es => es@));
                    assert(decreases_to!(es@ => es@[i as int]));
                }
                let ne = normalize(genv, env, &es[i]);
                out.push(ne);
                i = i + 1;
            }
            proof {
                crate::ast::lemma_terms_view(out@);
                assert(terms_view(out@) =~= spec_out);
            }
            Term::ArrayIntro(*span, out)
        },
        Term::RecordTypeNil(span) => Term::RecordTypeNil(*span),
        Term::RecordTypeCons(span, l, a, b) => {
            let na = normalize(genv, env, a);
            env.push(EnvEntry::Rigid);
            proof {
                assert(env_view(env@) =~= env_view(old(env)@).push(SpecEnvEntry::Rigid));
            }
            let nb = normalize(genv, env, b);
            let _ = env.pop();
            proof {
                assert(env@ =~= old(env)@);
            }
            Term::RecordTypeCons(*span, l.clone(), Box::new(na), Box::new(nb))
        },
        Term::RecordIntroNil(span) => Term::RecordIntroNil(*span),
        Term::RecordIntroCons(span, l, a, b) => {
            let na = normalize(genv, env, a);
            let nb = normalize(genv, env, b);
            Term::RecordIntroCons(*span, l.clone(), Box::new(na), Box::new(nb))
        },
        Term::Constrained(span, a, l, b) => {
            let na = normalize(genv, env, a);
            env.push(EnvEntry::Rigid);
            proof {
                assert(env_view(env@) =~= env_view(old(env)@).push(SpecEnvEntry::Rigid));
            }
            let nb = normalize(genv, env, b);
            let _ = env.pop();
            proof {
                assert(env@ =~= old(env)@);
            }
            Term::Constrained(*span, Box::new(na), l.clone(), Box::new(nb))
        },
        Term::Universe(span, u) => Term::Universe(*span, *u),
        Term::Prim(span, c) => Term::Prim(*span, *c),
        Term::BoolType(span) => Term::BoolType(*span),
        Term::IntType(span) => Term::IntType(*span),
        Term::F32Type(span) => Term::F32Type(*span),
        Term::F64Type(span) => Term::F64Type(*span),
        Term::StringType(span) => Term::StringType(*span),
        Term::BoolConst(span, b) => Term::BoolConst(*span, *b),
        Term::IntConst(span, n) => Term::IntConst(*span, n.clone()),
        Term::F32Const(span, b) => Term::F32Const(*span, *b),
        Term::F64Const(span, b) => Term::F64Const(*span, *b),
        Term::StringConst(span, s) => Term::StringConst(*span, s.clone()),
        Term::Error(span) => Term::Error(*span),
    }
}

/// Definitional equality of the models of two closed terms: equality of
/// their normal forms, which under de Bruijn indices is equality up to
/// alpha-equivalence.
pub open spec fn spec_equal(genv: Seq<SpecItemEntry>, a: SpecTerm, b: SpecTerm) -> bool {
    spec_normalize(genv, Seq::empty(), a) == spec_normalize(genv, Seq::empty(), b)
}

/// Definitional equality of two closed terms: both sides are normalised and
/// compared up to alpha-equivalence.
pub fn equal(genv: &Vec<ItemEntry>, a: &Term, b: &Term) -> (r: bool)
    ensures
        r == spec_equal(genv_view(genv@), term_view(a), term_view(b)),
{
    let mut env: Vec<EnvEntry> = Vec::new();
    let na = normalize(genv, &mut env, a);
    let nb = normalize(genv, &mut env, b);
    proof {
        assert(env_view(env@) =~= Seq::<SpecEnvEntry>::empty());
    }
    na.alpha_eq(&nb)
}

/// Definitional equality is reflexive.
pub proof fn lemma_equal_reflexive(genv: Seq<SpecItemEntry>, a: SpecTerm)
    ensures
        spec_equal(genv, a, a),
{
}

/// Definitional equality is symmetric.
pub proof fn lemma_equal_symmetric(genv: Seq<SpecItemEntry>, a: SpecTerm, b: SpecTerm)
    ensures
        spec_equal(genv, a, b) == spec_equal(genv, b, a),
{
}

/// Definitional equality is transitive.
pub proof fn lemma_equal_transitive(genv: Seq<SpecItemEntry>, a: SpecTerm, b: SpecTerm, c: SpecTerm)
    requires
        spec_equal(genv, a, b),
        spec_equal(genv, b, c),
    ensures
        spec_equal(genv, a, c),
{
}

/// Every environment entry is rigid or binds an error-free value.
pub open spec fn env_error_free(env: Seq<SpecEnvEntry>) -> bool {
    forall|i: int|
        0 <= i < env.len() ==> match #[trigger] env[i] {
            SpecEnvEntry::Val(v) => crate::ast::error_free(v),
            SpecEnvEntry::Rigid => true,
        }
}

/// Every alias definition reachable by lookup is error-free.
pub open spec fn genv_error_free(genv: Seq<SpecItemEntry>) -> bool {
    forall|n: Seq<char>|
        match #[trigger] spec_lookup_item(genv, n) {
            Some(e) => match e.def {
                Some(d) => crate::ast::error_free(d),
                None => true,
            },
            None => true,
        }
}

/// Normalisation introduces no error sentinel.
pub proof fn lemma_normalize_error_free(
    genv: Seq<SpecItemEntry>,
    env: Seq<SpecEnvEntry>,
    t: SpecTerm,
)
    requires
        crate::ast::error_free(t),
        env_error_free(env),
        genv_error_free(genv),
    ensures
        crate::ast::error_free(spec_normalize(genv, env, t)),
    decreases t,
{
    match t {
        SpecTerm::Var(i) => {
            if i < env.len() {
                assert(env_error_free(env));
                assert(0 <= env.len() - 1 - i < env.len());
            }
        },
        SpecTerm::Ann(a, _) => {
            lemma_normalize_error_free(genv, env, *a);
        },
        SpecTerm::BoolElim(c, a, b) => {
            lemma_normalize_error_free(genv, env, *c);
            lemma_normalize_error_free(genv, env, *a);
            lemma_normalize_error_free(genv, env, *b);
        },
        SpecTerm::Cmp(_, a, b) => {
            lemma_normalize_error_free(genv, env, *a);
            lemma_normalize_error_free(genv, env, *b);
        },
        SpecTerm::ArrayType(a, b) => {
            lemma_normalize_error_free(genv, env, *a);
            lemma_normalize_error_free(genv, env, *b);
        },
        SpecTerm::ArrayIntro(es) => {
            lemma_spec_normalize_seq(genv, env, es);
            assert forall|i: int|
                0 <= i < es.len() implies crate::ast::error_free(
                #[trigger] spec_normalize_seq(genv, env, es)[i],
            ) by {
                lemma_normalize_error_free(genv, env, es[i]);
            }
        },
        SpecTerm::RecordTypeCons(_, a, b) => {
            lemma_normalize_error_free(genv, env, *a);
            let e1 = env.push(SpecEnvEntry::Rigid);
            assert(env_error_free(e1)) by {
                assert forall|i: int|
                    0 <= i < e1.len() implies match #[trigger] e1[i] {
                    SpecEnvEntry::Val(v) => crate::ast::error_free(v),
                    SpecEnvEntry::Rigid => true,
                } by {
                    if i < env.len() {
                        assert(e1[i] == env[i]);
                    }
                }
            }
            lemma_normalize_error_free(genv, e1, *b);
        },
        SpecTerm::RecordIntroCons(_, a, b) => {
            lemma_normalize_error_free(genv, env, *a);
            lemma_normalize_error_free(genv, env, *b);
        },
        SpecTerm::Constrained(a, b) => {
            lemma_normalize_error_free(genv, env, *a);
            let e1 = env.push(SpecEnvEntry::Rigid);
            assert(env_error_free(e1)) by {
                assert forall|i: int|
                    0 <= i < e1.len() implies match #[trigger] e1[i] {
                    SpecEnvEntry::Val(v) => crate::ast::error_free(v),
                    SpecEnvEntry::Rigid => true,
                } by {
                    if i < env.len() {
                        assert(e1[i] == env[i]);
                    }
                }
            }
            lemma_normalize_error_free(genv, e1, *b);
        },
        _ => {},
    }
}

/// An environment entry fit for normalisation: rigid, or a closed value that
/// is its own normal form.
pub open spec fn entry_ok(genv: Seq<SpecItemEntry>, e: SpecEnvEntry) -> bool {
    match e {
        SpecEnvEntry::Rigid => true,
        SpecEnvEntry::Val(v) => closed(v) && spec_normalize(genv, Seq::empty(), v) == v,
    }
}

/// Every environment entry is fit for normalisation.
pub open spec fn env_ok(genv: Seq<SpecItemEntry>, env: Seq<SpecEnvEntry>) -> bool {
    forall|i: int| 0 <= i < env.len() ==> entry_ok(genv, #[trigger] env[i])
}

/// Every alias definition reachable by lookup is a closed normal form.
pub open spec fn genv_ok(genv: Seq<SpecItemEntry>) -> bool {
    forall|n: Seq<char>|
        match #[trigger] spec_lookup_item(genv, n) {
            Some(e) => match e.def {
                Some(d) => closed(d) && spec_normalize(genv, Seq::empty(), d) == d,
                None => true,
            },
            None => true,
        }
}

/// Normalisation only looks at the innermost `k` environment entries of a
/// term scoped at depth `k`.
pub proof fn lemma_normalize_env_agree(
    genv: Seq<SpecItemEntry>,
    env1: Seq<SpecEnvEntry>,
    env2: Seq<SpecEnvEntry>,
    t: SpecTerm,
    k: nat,
)
    requires
        scoped(t, k),
        k <= env1.len() || k == 0,
        k <= env2.len() || k == 0,
        forall|i: int|
            0 <= i < k ==> #[trigger] env1[env1.len() - 1 - i] == env2[env2.len() - 1 - i],
    ensures
        spec_normalize(genv, env1, t) == spec_normalize(genv, env2, t),
    decreases t,
{
    match t {
        SpecTerm::Var(i) => {
            assert(i < k);
        },
        SpecTerm::Ann(a, b) => {
            lemma_normalize_env_agree(genv, env1, env2, *a, k);
        },
        SpecTerm::BoolElim(c, a, b) => {
            lemma_normalize_env_agree(genv, env1, env2, *c, k);
            lemma_normalize_env_agree(genv, env1, env2, *a, k);
            lemma_normalize_env_agree(genv, env1, env2, *b, k);
        },
        SpecTerm::Cmp(_, a, b) => {
            lemma_normalize_env_agree(genv, env1, env2, *a, k);
            lemma_normalize_env_agree(genv, env1, env2, *b, k);
        },
        SpecTerm::ArrayType(a, b) => {
            lemma_normalize_env_agree(genv, env1, env2, *a, k);
            lemma_normalize_env_agree(genv, env1, env2, *b, k);
        },
        SpecTerm::ArrayIntro(es) => {
            lemma_normalize_env_agree_seq(genv, env1, env2, es, k);
        },
        SpecTerm::RecordTypeCons(_, a, b) => {
            lemma_normalize_env_agree(genv, env1, env2, *a, k);
            let e1 = env1.push(SpecEnvEntry::Rigid);
            let e2 = env2.push(SpecEnvEntry::Rigid);
            assert forall|i: int| 0 <= i < k + 1 implies #[trigger] e1[e1.len() - 1 - i]
                == e2[e2.len() - 1 - i] by {
                if i > 0 {
                    assert(e1[e1.len() - 1 - i] == env1[env1.len() - 1 - (i - 1)]);
                    assert(e2[e2.len() - 1 - i] == env2[env2.len() - 1 - (i - 1)]);
                }
            }
            lemma_normalize_env_agree(genv, e1, e2, *b, k + 1);
        },
        SpecTerm::RecordIntroCons(_, a, b) => {
            lemma_normalize_env_agree(genv, env1, env2, *a, k);
            lemma_normalize_env_agree(genv, env1, env2, *b, k);
        },
        SpecTerm::Constrained(a, b) => {
            lemma_normalize_env_agree(genv, env1, env2, *a, k);
            let e1 = env1.push(SpecEnvEntry::Rigid);
            let e2 = env2.push(SpecEnvEntry::Rigid);
            assert forall|i: int| 0 <= i < k + 1 implies #[trigger] e1[e1.len() - 1 - i]
                == e2[e2.len() - 1 - i] by {
                if i > 0 {
                    assert(e1[e1.len() - 1 - i] == env1[env1.len() - 1 - (i - 1)]);
                    assert(e2[e2.len() - 1 - i] == env2[env2.len() - 1 - (i - 1)]);
                }
            }
            lemma_normalize_env_agree(genv, e1, e2, *b, k + 1);
        },
        _ => {},
    }
}

/// Sequence form of [`lemma_normalize_env_agree`].
pub proof fn lemma_normalize_env_agree_seq(
    genv: Seq<SpecItemEntry>,
    env1: Seq<SpecEnvEntry>,
    env2: Seq<SpecEnvEntry>,
    es: Seq<SpecTerm>,
    k: nat,
)
    requires
        forall|i: int| 0 <= i < es.len() ==> scoped(#[trigger] es[i], k),
        k <= env1.len() || k == 0,
        k <= env2.len() || k == 0,
        forall|i: int|
            0 <= i < k ==> #[trigger] env1[env1.len() - 1 - i] == env2[env2.len() - 1 - i],
    ensures
        spec_normalize_seq(genv, env1, es) == spec_normalize_seq(genv, env2, es),
    decreases es,
{
    if es.len() > 0 {
        lemma_normalize_env_agree(genv, env1, env2, es[0], k);
        lemma_normalize_env_agree_seq(genv, env1, env2, es.subrange(1, es.len() as int), k);
    }
}

/// Normalisation is idempotent: normalising a normal form changes nothing.
/// Under de Bruijn indices, equality of models is alpha-equivalence.
pub proof fn lemma_normalize_idempotent(
    genv: Seq<SpecItemEntry>,
    env: Seq<SpecEnvEntry>,
    t: SpecTerm,
)
    requires
        genv_ok(genv),
        env_ok(genv, env),
    ensures
        spec_normalize(genv, env, spec_normalize(genv, env, t)) == spec_normalize(genv, env, t),
    decreases t,
{
    match t {
        SpecTerm::Var(i) => {
            if i < env.len() {
                match env[env.len() - 1 - i] {
                    SpecEnvEntry::Rigid => {},
                    SpecEnvEntry::Val(v) => {
                        assert(entry_ok(genv, env[env.len() - 1 - i]));
                        lemma_normalize_env_agree(genv, env, Seq::empty(), v, 0);
                    },
                }
            }
        },
        SpecTerm::Item(n) => {
            match spec_lookup_item(genv, n) {
                Some(e) => match e.def {
                    Some(d) => {
                        lemma_normalize_env_agree(genv, env, Seq::empty(), d, 0);
                    },
                    None => {},
                },
                None => {},
            }
        },
        SpecTerm::Ann(a, _) => {
            lemma_normalize_idempotent(genv, env, *a);
        },
        SpecTerm::BoolElim(c, a, b) => {
            lemma_normalize_idempotent(genv, env, *c);
            lemma_normalize_idempotent(genv, env, *a);
            lemma_normalize_idempotent(genv, env, *b);
        },
        SpecTerm::Cmp(_, a, b) => {
            lemma_normalize_idempotent(genv, env, *a);
            lemma_normalize_idempotent(genv, env, *b);
        },
        SpecTerm::ArrayType(a, b) => {
            lemma_normalize_idempotent(genv, env, *a);
            lemma_normalize_idempotent(genv, env, *b);
        },
        SpecTerm::ArrayIntro(es) => {
            lemma_normalize_idempotent_seq(genv, env, es);
        },
        SpecTerm::RecordTypeCons(_, a, b) => {
            lemma_normalize_idempotent(genv, env, *a);
            let e1 = env.push(SpecEnvEntry::Rigid);
            assert(env_ok(genv, e1)) by {
                assert forall|i: int| 0 <= i < e1.len() implies entry_ok(genv, #[trigger] e1[i]) by {
                    if i < env.len() {
                        assert(e1[i] == env[i]);
                    }
                }
            }
            lemma_normalize_idempotent(genv, e1, *b);
        },
        SpecTerm::RecordIntroCons(_, a, b) => {
            lemma_normalize_idempotent(genv, env, *a);
            lemma_normalize_idempotent(genv, env, *b);
        },
        SpecTerm::Constrained(a, b) => {
            lemma_normalize_idempotent(genv, env, *a);
            let e1 = env.push(SpecEnvEntry::Rigid);
            assert(env_ok(genv, e1)) by {
                assert forall|i: int| 0 <= i < e1.len() implies entry_ok(genv, #[trigger] e1[i]) by {
                    if i < env.len() {
                        assert(e1[i] == env[i]);
                    }
                }
            }
            lemma_normalize_idempotent(genv, e1, *b);
        },
        _ => {},
    }
}

/// Sequence form of [`lemma_normalize_idempotent`].
pub proof fn lemma_normalize_idempotent_seq(
    genv: Seq<SpecItemEntry>,
    env: Seq<SpecEnvEntry>,
    es: Seq<SpecTerm>,
)
    requires
        genv_ok(genv),
        env_ok(genv, env),
    ensures
        spec_normalize_seq(genv, env, spec_normalize_seq(genv, env, es)) == spec_normalize_seq(
            genv,
            env,
            es,
        ),
    decreases es,
{
    if es.len() > 0 {
        lemma_normalize_idempotent(genv, env, es[0]);
        lemma_normalize_idempotent_seq(genv, env, es.subrange(1, es.len() as int));
        let ns = spec_normalize_seq(genv, env, es);
        lemma_spec_normalize_seq(genv, env, es);
        assert(ns.subrange(1, ns.len() as int) =~= spec_normalize_seq(
            genv,
            env,
            es.subrange(1, es.len() as int),
        )) by {
            lemma_spec_normalize_seq(genv, env, es.subrange(1, es.len() as int));
            assert forall|i: int|
                0 <= i < ns.len() - 1 implies ns.subrange(1, ns.len() as int)[i]
                == spec_normalize_seq(genv, env, es.subrange(1, es.len() as int))[i] by {
                assert(es.subrange(1, es.len() as int)[i] == es[i + 1]);
            }
        }
    }
}

/// Every bound value holds no record-type constructor.
pub open spec fn env_counts_zero(env: Seq<SpecEnvEntry>) -> bool {
    forall|i: int|
        0 <= i < env.len() ==> match #[trigger] env[i] {
            SpecEnvEntry::Val(v) => record_type_count(v) == 0,
            SpecEnvEntry::Rigid => true,
        }
}

/// With no global definitions and no record types in the environment,
/// normalisation cannot increase the number of record-type constructors.
/// The format interpreter's termination rests on this bound.
pub proof fn lemma_normalize_count(
    genv: Seq<SpecItemEntry>,
    env: Seq<SpecEnvEntry>,
    t: SpecTerm,
)
    requires
        genv.len() == 0,
        env_counts_zero(env),
    ensures
        record_type_count(spec_normalize(genv, env, t)) <= record_type_count(t),
    decreases t,
{
    match t {
        SpecTerm::Var(i) => {
            if i < env.len() {
                assert(env_counts_zero(env));
                assert(0 <= env.len() - 1 - i < env.len());
            }
        },
        SpecTerm::Ann(a, _) => {
            lemma_normalize_count(genv, env, *a);
        },
        SpecTerm::BoolElim(c, a, b) => {
            lemma_normalize_count(genv, env, *c);
            lemma_normalize_count(genv, env, *a);
            lemma_normalize_count(genv, env, *b);
        },
        SpecTerm::Cmp(_, a, b) => {
            lemma_normalize_count(genv, env, *a);
            lemma_normalize_count(genv, env, *b);
        },
        SpecTerm::ArrayType(a, b) => {
            lemma_normalize_count(genv, env, *a);
            lemma_normalize_count(genv, env, *b);
        },
        SpecTerm::ArrayIntro(es) => {
            lemma_normalize_count_seq(genv, env, es);
        },
        SpecTerm::RecordTypeCons(_, a, b) => {
            lemma_normalize_count(genv, env, *a);
            let e1 = env.push(SpecEnvEntry::Rigid);
            assert(env_counts_zero(e1)) by {
                assert forall|i: int|
                    0 <= i < e1.len() implies match #[trigger] e1[i] {
                    SpecEnvEntry::Val(v) => record_type_count(v) == 0,
                    SpecEnvEntry::Rigid => true,
                } by {
                    if i < env.len() {
                        assert(e1[i] == env[i]);
                    }
                }
            }
            lemma_normalize_count(genv, e1, *b);
        },
        SpecTerm::RecordIntroCons(_, a, b) => {
            lemma_normalize_count(genv, env, *a);
            lemma_normalize_count(genv, env, *b);
        },
        SpecTerm::Constrained(a, b) => {
            lemma_normalize_count(genv, env, *a);
            let e1 = env.push(SpecEnvEntry::Rigid);
            assert(env_counts_zero(e1)) by {
                assert forall|i: int|
                    0 <= i < e1.len() implies match #[trigger] e1[i] {
                    SpecEnvEntry::Val(v) => record_type_count(v) == 0,
                    SpecEnvEntry::Rigid => true,
                } by {
                    if i < env.len() {
                        assert(e1[i] == env[i]);
                    }
                }
            }
            lemma_normalize_count(genv, e1, *b);
        },
        _ => {},
    }
}

/// Sequence form of [`lemma_normalize_count`].
pub proof fn lemma_normalize_count_seq(
    genv: Seq<SpecItemEntry>,
    env: Seq<SpecEnvEntry>,
    es: Seq<SpecTerm>,
)
    requires
        genv.len() == 0,
        env_counts_zero(env),
    ensures
        record_type_count_seq(spec_normalize_seq(genv, env, es)) <= record_type_count_seq(es),
    decreases es,
{
    if es.len() > 0 {
        let rest = es.subrange(1, es.len() as int);
        lemma_normalize_count(genv, env, es[0]);
        lemma_normalize_count_seq(genv, env, rest);
        let ns = spec_normalize_seq(genv, env, es);
        assert(ns.subrange(1, ns.len() as int) =~= spec_normalize_seq(genv, env, rest));
    }
}


/// Idempotence needs no hypotheses when there are no items and every binder
/// is rigid: the empty environment trivially satisfies [`genv_ok`], and a
/// rigid environment trivially satisfies [`env_ok`].
pub proof fn lemma_normalize_idempotent_closed(n: nat, t: SpecTerm)
    ensures
        spec_normalize(
            Seq::empty(),
            crate::check::rigid_seq(n),
            spec_normalize(Seq::empty(), crate::check::rigid_seq(n), t),
        ) == spec_normalize(Seq::empty(), crate::check::rigid_seq(n), t),
{
    assert(genv_ok(Seq::empty())) by {
        assert forall|nm: Seq<char>|
            match #[trigger] spec_lookup_item(Seq::<SpecItemEntry>::empty(), nm) {
                Some(e) => match e.def {
                    Some(d) => closed(d) && spec_normalize(Seq::empty(), Seq::empty(), d) == d,
                    None => true,
                },
                None => true,
            } by {}
    }
    assert(env_ok(Seq::empty(), crate::check::rigid_seq(n))) by {
        assert forall|i: int|
            0 <= i < crate::check::rigid_seq(n).len() implies entry_ok(
            Seq::empty(),
            #[trigger] crate::check::rigid_seq(n)[i],
        ) by {}
    }
    lemma_normalize_idempotent(Seq::empty(), crate::check::rigid_seq(n), t);
}

} // verus!
