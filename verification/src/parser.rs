//! The format interpreter.
//!
//! Given a core type in normal form, reads a byte stream and produces a core
//! value: primitive integer and float formats read their fixed number of
//! bytes, arrays read their literal count of elements, and dependent record
//! types read each field in order, substituting every parsed value into the
//! tail before reading on. Anything else — host types, constrained formats,
//! stuck terms, struct heads — is rejected as an invalid format.
//!
//! The interpreter is a pure function of the type, the bytes, and the start
//! position; its contract pins the result to [`spec_parse`], so two runs on
//! equal inputs return equal values and consume equally many bytes.

use vstd::prelude::*;

use crate::ast::{
    record_type_count, record_type_count_seq, term_view, terms_view, Endianness, SpecTerm, Term,
    TypeConst,
};
use crate::integer::{int_value, int_wf, spec_int_of, Integer};
use crate::semantics::{
    env_counts_zero, env_view, genv_view, normalize, spec_normalize, EnvEntry, ItemEntry,
    SpecEnvEntry, SpecItemEntry,
};
use crate::span::Span;

verus! {

broadcast use vstd::seq::group_seq_axioms, vstd::std_specs::vec::group_vec_axioms, vstd::slice::group_slice_axioms;

/// An error of the format interpreter.
#[derive(Debug)]
pub enum ParseError {
    /// The type is not a binary format the interpreter can read.
    InvalidFormat(Term),
    /// An array length is not a literal non-negative integer within the
    /// platform limit.
    BadArrayLength(Term),
    /// The byte source ended in the middle of a value.
    UnexpectedEof,
    /// A bound variable survived normalisation: a scoping bug in the caller.
    UnexpectedBoundVar(Span, usize),
}

/// Model of a [`ParseError`].
pub ghost enum SpecParseError {
    InvalidFormat(SpecTerm),
    BadArrayLength(SpecTerm),
    UnexpectedEof,
    UnexpectedBoundVar(nat),
}

impl View for ParseError {
    type V = SpecParseError;

    open spec fn view(&self) -> SpecParseError {
        match self {
            ParseError::InvalidFormat(t) => SpecParseError::InvalidFormat(term_view(t)),
            ParseError::BadArrayLength(t) => SpecParseError::BadArrayLength(term_view(t)),
            ParseError::UnexpectedEof => SpecParseError::UnexpectedEof,
            ParseError::UnexpectedBoundVar(_, i) => SpecParseError::UnexpectedBoundVar(*i as nat),
        }
    }
}

/// 256 to the power `n`: the number of values of `n` bytes.
pub open spec fn pow256(n: nat) -> nat
    decreases n,
{
    if n == 0 {
        1
    } else {
        256 * pow256((n - 1) as nat)
    }
}

/// The unsigned value of little-endian bytes.
pub open spec fn le_value(s: Seq<u8>) -> nat
    decreases s.len(),
{
    if s.len() == 0 {
        0
    } else {
        (s[0] + 256 * le_value(s.subrange(1, s.len() as int))) as nat
    }
}

/// The unsigned value of big-endian bytes.
pub open spec fn be_value(s: Seq<u8>) -> nat
    decreases s.len(),
{
    if s.len() == 0 {
        0
    } else {
        (s[s.len() - 1] + 256 * be_value(s.subrange(0, s.len() - 1))) as nat
    }
}

/// The unsigned value of bytes in the given order.
pub open spec fn prim_value(e: Endianness, s: Seq<u8>) -> nat {
    match e {
        Endianness::Little => le_value(s),
        Endianness::Big => be_value(s),
    }
}

/// Two's-complement reading of an `n`-byte unsigned value.
pub open spec fn signed_of(u: nat, n: nat) -> int {
    if 2 * u >= pow256(n) {
        u - pow256(n)
    } else {
        u as int
    }
}

/// A primitive integer width the wire format supports.
pub open spec fn int_size_ok(n: usize) -> bool {
    n == 1 || n == 2 || n == 4 || n == 8
}

pub proof fn lemma_le_value_bound(s: Seq<u8>)
    ensures
        le_value(s) < pow256(s.len()),
    decreases s.len(),
{
    if s.len() > 0 {
        let rest = s.subrange(1, s.len() as int);
        lemma_le_value_bound(rest);
        assert(256 * le_value(rest) <= 256 * (pow256(rest.len()) - 1)) by (nonlinear_arith)
            requires
                le_value(rest) <= pow256(rest.len()) - 1,
        ;
    }
}

pub proof fn lemma_be_value_bound(s: Seq<u8>)
    ensures
        be_value(s) < pow256(s.len()),
    decreases s.len(),
{
    if s.len() > 0 {
        let rest = s.subrange(0, s.len() - 1);
        lemma_be_value_bound(rest);
        assert(256 * be_value(rest) <= 256 * (pow256(rest.len()) - 1)) by (nonlinear_arith)
            requires
                be_value(rest) <= pow256(rest.len()) - 1,
        ;
    }
}

pub proof fn lemma_prim_value_bound(e: Endianness, s: Seq<u8>)
    ensures
        prim_value(e, s) < pow256(s.len()),
{
    match e {
        Endianness::Little => lemma_le_value_bound(s),
        Endianness::Big => lemma_be_value_bound(s),
    }
}

/// The result of reading one value: the parsed core value and the position
/// after it, or the first error together with the position at which parsing
/// failed — the stream is considered consumed up to that point.
pub open spec fn spec_parse(ty: SpecTerm, bytes: Seq<u8>, pos: nat) -> Result<
    (SpecTerm, nat),
    (SpecParseError, nat),
>
    decreases record_type_count(ty), ty, 0int,
{
    match ty {
        SpecTerm::Prim(TypeConst::U(n, e)) => if int_size_ok(n) {
            if pos + n <= bytes.len() {
                let u = prim_value(e, bytes.subrange(pos as int, pos + n));
                Ok((SpecTerm::IntConst(spec_int_of(u as int)), (pos + n as nat)))
            } else {
                Err((SpecParseError::UnexpectedEof, pos))
            }
        } else {
            Err((SpecParseError::InvalidFormat(ty), pos))
        },
        SpecTerm::Prim(TypeConst::S(n, e)) => if int_size_ok(n) {
            if pos + n <= bytes.len() {
                let u = prim_value(e, bytes.subrange(pos as int, pos + n));
                Ok((SpecTerm::IntConst(spec_int_of(signed_of(u, n as nat))), (pos + n as nat)))
            } else {
                Err((SpecParseError::UnexpectedEof, pos))
            }
        } else {
            Err((SpecParseError::InvalidFormat(ty), pos))
        },
        SpecTerm::Prim(TypeConst::F(n, e)) => if n == 4 || n == 8 {
            if pos + n <= bytes.len() {
                let u = prim_value(e, bytes.subrange(pos as int, pos + n));
                if n == 4 {
                    Ok((SpecTerm::F32Const((u % 0x1_0000_0000) as u32), (pos + n as nat)))
                } else {
                    Ok((SpecTerm::F64Const((u % 0x1_0000_0000_0000_0000) as u64), (pos + n as nat)))
                }
            } else {
                Err((SpecParseError::UnexpectedEof, pos))
            }
        } else {
            Err((SpecParseError::InvalidFormat(ty), pos))
        },
        SpecTerm::ArrayType(l, e) => match *l {
            SpecTerm::IntConst(x) => if int_wf(x) && 0 <= int_value(x) <= usize::MAX as int {
                match spec_parse_array(*e, int_value(x) as nat, bytes, pos) {
                    Ok((vs, p)) => Ok((SpecTerm::ArrayIntro(vs), p)),
                    Err(er) => Err(er),
                }
            } else {
                Err((SpecParseError::BadArrayLength(*l), pos))
            },
            _ => Err((SpecParseError::BadArrayLength(*l), pos)),
        },
        SpecTerm::RecordTypeNil => Ok((SpecTerm::RecordIntroNil, pos)),
        SpecTerm::RecordTypeCons(lbl, t1, rest) => match spec_parse(*t1, bytes, pos) {
            Ok((v, p)) => if record_type_count(v) == 0 {
                let benv = seq![SpecEnvEntry::Val(v)];
                let tail = spec_normalize(Seq::<SpecItemEntry>::empty(), benv, *rest);
                proof {
                    assert(env_counts_zero(benv)) by {
                        assert(benv[0] == SpecEnvEntry::Val(v));
                    }
                    crate::semantics::lemma_normalize_count(
                        Seq::<SpecItemEntry>::empty(),
                        benv,
                        *rest,
                    );
                }
                match spec_parse(tail, bytes, p) {
                    Ok((rv, p2)) => Ok(
                        (SpecTerm::RecordIntroCons(lbl, Box::new(v), Box::new(rv)), p2),
                    ),
                    Err(er) => Err(er),
                }
            } else {
                Err((SpecParseError::InvalidFormat(*rest), p))
            },
            Err(er) => Err(er),
        },
        SpecTerm::Var(i) => Err((SpecParseError::UnexpectedBoundVar(i), pos)),
        _ => Err((SpecParseError::InvalidFormat(ty), pos)),
    }
}

/// Reads `n` values of type `elem` in sequence.
pub open spec fn spec_parse_array(elem: SpecTerm, n: nat, bytes: Seq<u8>, pos: nat) -> Result<
    (Seq<SpecTerm>, nat),
    (SpecParseError, nat),
>
    decreases record_type_count(elem), elem, n as int,
{
    if n == 0 {
        Ok((Seq::empty(), pos))
    } else {
        match spec_parse(elem, bytes, pos) {
            Ok((v, p)) => match spec_parse_array(elem, (n - 1) as nat, bytes, p) {
                Ok((vs, p2)) => Ok((seq![v] + vs, p2)),
                Err(er) => Err(er),
            },
            Err(er) => Err(er),
        }
    }
}

/// Reads an unsigned integer of `n` bytes in the given byte order.
#[verifier::loop_isolation(false)]
fn read_uint(bytes: &[u8], pos: usize, n: usize, e: Endianness) -> (r: u64)
    requires
        1 <= n <= 8,
        pos + n <= bytes@.len(),
    ensures
        r as nat == prim_value(e, bytes@.subrange(pos as int, pos + n)),
{
    let ghost s = bytes@.subrange(pos as int, pos + n);
    let blen: usize = bytes.len();
    let mut acc: u64 = 0;
    match e {
        Endianness::Little => {
            let mut i: usize = n;
            while i > 0
                invariant
                    i <= n,
                    acc as nat == le_value(s.subrange(i as int, n as int)),
                    (acc as nat) < pow256((n - i) as nat),
                decreases i,
            {
                let ghost suf = s.subrange(i - 1, n as int);
                proof {
                    assert(suf.subrange(1, suf.len() as int) =~= s.subrange(i as int, n as int));
                    assert(le_value(suf) == suf[0] + 256 * le_value(
                        s.subrange(i as int, n as int),
                    ));
                    lemma_pow256_monotone((n - i) as nat, 7);
                    assert(pow256(7) == 0x100000000000000) by {
                        reveal_with_fuel(pow256, 9);
                    }
                    assert(256 * (acc as nat) <= 256 * (pow256((n - i) as nat) - 1))
                        by (nonlinear_arith)
                        requires
                            acc as nat <= pow256((n - i) as nat) - 1,
                    ;
                }
                acc = acc * 256 + (bytes[pos + i - 1] as u64);
                proof {
                    assert(s[i - 1] == bytes@[pos + i - 1]);
                    assert(suf[0] == s[i - 1]);
                }
                i = i - 1;
            }
            proof {
                assert(s.subrange(0, n as int) =~= s);
            }
        },
        Endianness::Big => {
            let mut i: usize = 0;
            while i < n
                invariant
                    i <= n,
                    acc as nat == be_value(s.subrange(0, i as int)),
                    (acc as nat) < pow256(i as nat),
                decreases n - i,
            {
                let ghost pre = s.subrange(0, i + 1);
                proof {
                    assert(pre.subrange(0, pre.len() - 1) =~= s.subrange(0, i as int));
                    assert(be_value(pre) == pre[pre.len() - 1] + 256 * be_value(
                        s.subrange(0, i as int),
                    ));
                    lemma_pow256_monotone(i as nat, 7);
                    assert(pow256(7) == 0x100000000000000) by {
                        reveal_with_fuel(pow256, 9);
                    }
                    assert(256 * (acc as nat) <= 256 * (pow256(i as nat) - 1)) by (nonlinear_arith)
                        requires
                            acc as nat <= pow256(i as nat) - 1,
                    ;
                }
                acc = acc * 256 + (bytes[pos + i] as u64);
                proof {
                    assert(s[i as int] == bytes@[pos + i]);
                    assert(pre[pre.len() - 1] == s[i as int]);
                }
                i = i + 1;
            }
            proof {
                assert(s.subrange(0, n as int) =~= s);
            }
        },
    }
    acc
}

pub proof fn lemma_pow256_monotone(m: nat, n: nat)
    requires
        m <= n,
    ensures
        pow256(m) <= pow256(n),
    decreases n,
{
    if m < n {
        lemma_pow256_monotone(m, (n - 1) as nat);
        lemma_pow256_positive((n - 1) as nat);
    }
}

pub proof fn lemma_pow256_positive(n: nat)
    ensures
        pow256(n) >= 1,
    decreases n,
{
    if n > 0 {
        lemma_pow256_positive((n - 1) as nat);
    }
}

/// The two's-complement integer denoted by the `n`-byte unsigned value `u`.
fn signed_integer(u: u64, n: usize) -> (r: Integer)
    requires
        int_size_ok(n),
        (u as nat) < pow256(n as nat),
    ensures
        r@ == spec_int_of(signed_of(u as nat, n as nat)),
{
    proof {
        reveal_with_fuel(pow256, 9);
    }
    if n == 8 {
        if u >= 0x8000_0000_0000_0000 {
            Integer::from_i64(((u as i128) - 0x1_0000_0000_0000_0000_i128) as i64)
        } else {
            Integer::from_u64(u)
        }
    } else {
        let full: u64 = if n == 1 {
            0x100
        } else if n == 2 {
            0x1_0000
        } else {
            0x1_0000_0000
        };
        if u >= full / 2 {
            Integer::from_i64(((u as i128) - (full as i128)) as i64)
        } else {
            Integer::from_u64(u)
        }
    }
}

/// Whether a term holds a record-type constructor anywhere.
#[verifier::loop_isolation(false)]
fn has_record_type(t: &Term) -> (r: bool)
    ensures
        r == (record_type_count(term_view(t)) != 0),
    decreases t,
{
    match t {
        Term::Ann(a, b) => has_record_type(a) || has_record_type(b),
        Term::Cmp(_, _, a, b) => has_record_type(a) || has_record_type(b),
        Term::BoolElim(_, c, a, b) => has_record_type(c) || has_record_type(a) || has_record_type(
            b,
        ),
        Term::ArrayType(_, a, b) => has_record_type(a) || has_record_type(b),
        Term::ArrayIntro(_, es) => {
            let ghost vs = terms_view(es@);
            proof {
                crate::ast::lemma_terms_view(es@);
            }
            let mut i: usize = 0;
            let mut found: bool = false;
            while i < es.len() && !found
                invariant
                    i <= es.len(),
                    found == (record_type_count_seq(vs.subrange(0, i as int)) != 0),
                decreases es.len() - i,
            {
                proof {
                    assert(decreases_to!(*es => es@));
                    assert(decreases_to!(es@ => es@[i as int]));
                }
                let h = has_record_type(&es[i]);
                proof {
                    lemma_record_type_count_seq_push(vs.subrange(0, i as int), vs[i as int]);
                    assert(vs.subrange(0, i as int).push(vs[i as int]) =~= vs.subrange(
                        0,
                        i + 1,
                    ));
                }
                found = found || h;
                i = i + 1;
            }
            proof {
                if found {
                    if i < es.len() {
                        lemma_record_type_count_seq_prefix(vs, i as int);
                    } else {
                        assert(vs.subrange(0, i as int) =~= vs);
                    }
                } else {
                    assert(vs.subrange(0, i as int) =~= vs);
                }
            }
            found
        },
        Term::RecordTypeNil(_) => false,
        Term::RecordTypeCons(_, _, _, _) => true,
        Term::RecordIntroCons(_, _, a, b) => has_record_type(a) || has_record_type(b),
        Term::Constrained(_, a, _, b) => has_record_type(a) || has_record_type(b),
        _ => false,
    }
}

/// Appending a term adds its count to the sum.
pub proof fn lemma_record_type_count_seq_push(es: Seq<SpecTerm>, t: SpecTerm)
    ensures
        record_type_count_seq(es.push(t)) == record_type_count_seq(es) + record_type_count(t),
    decreases es.len(),
{
    let p = es.push(t);
    if es.len() == 0 {
        assert(p.len() == 1);
        assert(p[0] == t);
        assert(p.subrange(1, 1) =~= Seq::<SpecTerm>::empty());
        assert(record_type_count_seq(p.subrange(1, 1)) == 0);
        assert(record_type_count_seq(p) == record_type_count(p[0]) + record_type_count_seq(
            p.subrange(1, 1),
        ));
        assert(record_type_count_seq(es) == 0);
    } else {
        lemma_record_type_count_seq_push(es.subrange(1, es.len() as int), t);
        assert(p.subrange(1, p.len() as int) =~= es.subrange(1, es.len() as int).push(t));
        assert(p[0] == es[0]);
    }
}

/// A prefix's count is bounded by the whole sequence's count.
pub proof fn lemma_record_type_count_seq_prefix(es: Seq<SpecTerm>, k: int)
    requires
        0 <= k <= es.len(),
    ensures
        record_type_count_seq(es.subrange(0, k)) <= record_type_count_seq(es),
    decreases es.len(),
{
    if k > 0 && es.len() > 0 {
        lemma_record_type_count_seq_prefix(es.subrange(1, es.len() as int), k - 1);
        assert(es.subrange(0, k).subrange(1, k) =~= es.subrange(1, es.len() as int).subrange(
            0,
            k - 1,
        ));
        assert(es.subrange(0, k)[0] == es[0]);
    } else if k == 0 {
        assert(es.subrange(0, 0) =~= Seq::<SpecTerm>::empty());
    }
}

/// Reads one value of the normal-form type `nf` from `bytes` at `*pos`.
#[verifier::loop_isolation(false)]
#[verifier::rlimit(60)]
fn parse_nf(nf: &Term, bytes: &[u8], pos: &mut usize) -> (r: Result<Term, ParseError>)
    ensures
        *old(pos) <= *final(pos),
        match r {
            Ok(v) => spec_parse(term_view(nf), bytes@, *old(pos) as nat) == Ok::<
                (SpecTerm, nat),
                (SpecParseError, nat),
            >((term_view(&v), *final(pos) as nat)),
            Err(e) => spec_parse(term_view(nf), bytes@, *old(pos) as nat) == Err::<
                (SpecTerm, nat),
                (SpecParseError, nat),
            >((e@, *final(pos) as nat)),
        },
    decreases record_type_count(term_view(nf)), nf,
{
    match nf {
        Term::Prim(span, tc) => {
            let (n, e, kind): (usize, Endianness, u8) = match tc {
                TypeConst::U(n, e) => (*n, *e, 0u8),
                TypeConst::S(n, e) => (*n, *e, 1u8),
                TypeConst::F(n, e) => (*n, *e, 2u8),
            };
            if kind <= 1 && !(n == 1 || n == 2 || n == 4 || n == 8) {
                proof {
                    assert(spec_parse(term_view(nf), bytes@, *old(pos) as nat) == Err::<(SpecTerm, nat), (SpecParseError, nat)>((SpecParseError::InvalidFormat(term_view(nf)), *old(pos) as nat)));
                }
                return Err(ParseError::InvalidFormat(nf.clone()));
            }
            if kind == 2 && !(n == 4 || n == 8) {
                proof {
                    assert(spec_parse(term_view(nf), bytes@, *old(pos) as nat) == Err::<(SpecTerm, nat), (SpecParseError, nat)>((SpecParseError::InvalidFormat(term_view(nf)), *old(pos) as nat)));
                }
                return Err(ParseError::InvalidFormat(nf.clone()));
            }
            if !(n <= bytes.len() && *pos <= bytes.len() - n) {
                proof {
                    assert(spec_parse(term_view(nf), bytes@, *old(pos) as nat) == Err::<(SpecTerm, nat), (SpecParseError, nat)>((SpecParseError::UnexpectedEof, *old(pos) as nat)));
                }
                return Err(ParseError::UnexpectedEof);
            }
            let u = read_uint(bytes, *pos, n, e);
            proof {
                lemma_prim_value_bound(e, bytes@.subrange(*pos as int, *pos + n));
            }
            *pos = *pos + n;
            if kind == 0 {
                Ok(Term::IntConst(*span, Integer::from_u64(u)))
            } else if kind == 1 {
                Ok(Term::IntConst(*span, signed_integer(u, n)))
            } else if n == 4 {
                proof {
                    assert((u as nat) % 0x1_0000_0000 == u as nat) by {
                        reveal_with_fuel(pow256, 9);
                    }
                }
                Ok(Term::F32Const(*span, u as u32))
            } else {
                proof {
                    assert((u as nat) % 0x1_0000_0000_0000_0000 == u as nat);
                }
                Ok(Term::F64Const(*span, u))
            }
        },
        Term::ArrayType(span, l, el) => {
            match &**l {
                Term::IntConst(_, x) => {
                    if !x.is_canonical() {
                        proof {
                            assert(spec_parse(term_view(nf), bytes@, *old(pos) as nat) == Err::<
                                (SpecTerm, nat),
                                (SpecParseError, nat),
                            >((SpecParseError::BadArrayLength(term_view(&**l)), *old(pos) as nat)));
                        }
                        return Err(ParseError::BadArrayLength((**l).clone()));
                    }
                    match x.to_usize() {
                        None => {
                            proof {
                                assert(spec_parse(term_view(nf), bytes@, *old(pos) as nat)
                                    == Err::<
                                    (SpecTerm, nat),
                                    (SpecParseError, nat),
                                >((SpecParseError::BadArrayLength(term_view(&**l)), *old(pos) as nat)));
                            }
                            Err(ParseError::BadArrayLength((**l).clone()))
                        },
                        Some(cnt) => {
                            let ghost full = spec_parse_array(
                                term_view(&**el),
                                cnt as nat,
                                bytes@,
                                *old(pos) as nat,
                            );
                            let mut out: Vec<Term> = Vec::new();
                            let mut k: usize = 0;
                            loop
                                invariant
                                    k <= cnt,
                                    *old(pos) <= *pos,
                                    out@.len() == k,
                                    match spec_parse_array(
                                        term_view(&**el),
                                        (cnt - k) as nat,
                                        bytes@,
                                        *pos as nat,
                                    ) {
                                        Ok((vs, p)) => full == Ok::<
                                            (Seq<SpecTerm>, nat),
                                            (SpecParseError, nat),
                                        >((terms_view(out@) + vs, p)),
                                        Err(er) => full == Err::<
                                            (Seq<SpecTerm>, nat),
                                            (SpecParseError, nat),
                                        >(er),
                                    },
                                decreases cnt - k,
                            {
                                if k == cnt {
                                    break ;
                                }
                                proof {
                                    assert(decreases_to!(*nf => **el));
                                }
                                let ghost out_pre = out@;
                                let ghost pos_pre = *pos as nat;
                                match parse_nf(el, bytes, pos) {
                                    Ok(v) => {
                                        proof {
                                            crate::ast::lemma_terms_view(out_pre);
                                            crate::ast::lemma_terms_view(
                                                out_pre.push(v),
                                            );
                                            assert(terms_view(out_pre.push(v)) =~= terms_view(
                                                out_pre,
                                            ).push(term_view(&v)));
                                        }
                                        out.push(v);
                                        k = k + 1;
                                        proof {
                                            let vs_full = spec_parse_array(
                                                term_view(&**el),
                                                (cnt - k + 1) as nat,
                                                bytes@,
                                                pos_pre,
                                            );
                                            match spec_parse_array(
                                                term_view(&**el),
                                                (cnt - k) as nat,
                                                bytes@,
                                                *pos as nat,
                                            ) {
                                                Ok((vs, p)) => {
                                                    assert(terms_view(out_pre)
                                                        + (seq![
                                                        term_view(&out@[out@.len() - 1]),
                                                    ] + vs) =~= terms_view(out@) + vs);
                                                },
                                                Err(er) => {},
                                            }
                                        }
                                    },
                                    Err(e) => {
                                        proof {
                                            assert(spec_parse_array(
                                                term_view(&**el),
                                                (cnt - k) as nat,
                                                bytes@,
                                                pos_pre,
                                            ) == Err::<(Seq<SpecTerm>, nat), (SpecParseError, nat)>((e@, *pos as nat)));
                                            assert(full == Err::<
                                                (Seq<SpecTerm>, nat),
                                                (SpecParseError, nat),
                                            >((e@, *pos as nat)));
                                        }
                                        return Err(e);
                                    },
                                }
                            }
                            proof {
                                crate::ast::lemma_terms_view(out@);
                                assert(terms_view(out@) + Seq::<SpecTerm>::empty() =~= terms_view(
                                    out@,
                                ));
                            }
                            Ok(Term::ArrayIntro(*span, out))
                        },
                    }
                },
                _ => {
                    proof {
                        assert(spec_parse(term_view(nf), bytes@, *old(pos) as nat) == Err::<
                            (SpecTerm, nat),
                            (SpecParseError, nat),
                        >((SpecParseError::BadArrayLength(term_view(&**l)), *old(pos) as nat)));
                    }
                    Err(ParseError::BadArrayLength((**l).clone()))
                },
            }
        },
        Term::RecordTypeNil(span) => Ok(Term::RecordIntroNil(*span)),
        Term::RecordTypeCons(span, lbl, t1, rest) => {
            proof {
                assert(decreases_to!(*nf => **t1));
            }
            match parse_nf(t1, bytes, pos) {
                Err(e) => {
                    proof {
                        assert(spec_parse(term_view(nf), bytes@, *old(pos) as nat) == Err::<
                            (SpecTerm, nat),
                            (SpecParseError, nat),
                        >((e@, *pos as nat)));
                    }
                    Err(e)
                },
                Ok(v) => {
                    if has_record_type(&v) {
                        proof {
                            assert(spec_parse(term_view(nf), bytes@, *old(pos) as nat) == Err::<
                                (SpecTerm, nat),
                                (SpecParseError, nat),
                            >((SpecParseError::InvalidFormat(term_view(&**rest)), *pos as nat)));
                        }
                        return Err(ParseError::InvalidFormat((**rest).clone()));
                    }
                    let empty_genv: Vec<ItemEntry> = Vec::new();
                    let mut benv: Vec<EnvEntry> = Vec::new();
                    benv.push(EnvEntry::Val(v.clone()));
                    let ghost sbenv = seq![SpecEnvEntry::Val(term_view(&v))];
                    proof {
                        assert(genv_view(empty_genv@) =~= Seq::<SpecItemEntry>::empty());
                        assert(env_view(benv@) =~= sbenv);
                    }
                    let tail = normalize(&empty_genv, &mut benv, rest);
                    proof {
                        assert(env_counts_zero(sbenv)) by {
                            assert(sbenv[0] == SpecEnvEntry::Val(term_view(&v)));
                        }
                        crate::semantics::lemma_normalize_count(
                            Seq::<SpecItemEntry>::empty(),
                            sbenv,
                            term_view(&**rest),
                        );
                    }
                    match parse_nf(&tail, bytes, pos) {
                        Err(e) => {
                            proof {
                                assert(spec_parse(term_view(nf), bytes@, *old(pos) as nat)
                                    == Err::<(SpecTerm, nat), (SpecParseError, nat)>((
                                    e@,
                                    *pos as nat,
                                )));
                            }
                            Err(e)
                        },
                        Ok(rv) => Ok(
                            Term::RecordIntroCons(
                                *span,
                                lbl.clone(),
                                Box::new(v),
                                Box::new(rv),
                            ),
                        ),
                    }
                },
            }
        },
        Term::Var(span, i, _) => {
            proof {
                assert(spec_parse(term_view(nf), bytes@, *old(pos) as nat) == Err::<
                    (SpecTerm, nat),
                    (SpecParseError, nat),
                >((SpecParseError::UnexpectedBoundVar(*i as nat), *old(pos) as nat)));
            }
            Err(ParseError::UnexpectedBoundVar(*span, *i))
        },
        _ => {
            proof {
                assert(spec_parse(term_view(nf), bytes@, *old(pos) as nat) == Err::<
                    (SpecTerm, nat),
                    (SpecParseError, nat),
                >((SpecParseError::InvalidFormat(term_view(nf)), *old(pos) as nat)));
            }
            Err(ParseError::InvalidFormat(nf.clone()))
        },
    }
}

/// Reads one value from `bytes` at `*pos`, guided by the core type `ty`:
/// the type is first reduced to normal form under the module's items, then
/// interpreted. On success `*pos` is advanced past the bytes read; on failure
/// the stream is left at the failure position. The result is a function of
/// the type, the bytes, and the start position alone, so parsing is
/// deterministic.
pub fn parse(genv: &Vec<ItemEntry>, ty: &Term, bytes: &[u8], pos: &mut usize) -> (r: Result<
    Term,
    ParseError,
>)
    ensures
        *old(pos) <= *final(pos),
        match r {
            Ok(v) => spec_parse(
                spec_normalize(genv_view(genv@), Seq::empty(), term_view(ty)),
                bytes@,
                *old(pos) as nat,
            ) == Ok::<(SpecTerm, nat), (SpecParseError, nat)>((term_view(&v), *final(pos) as nat)),
            Err(e) => spec_parse(
                spec_normalize(genv_view(genv@), Seq::empty(), term_view(ty)),
                bytes@,
                *old(pos) as nat,
            ) == Err::<(SpecTerm, nat), (SpecParseError, nat)>((e@, *final(pos) as nat)),
        },
{
    let mut env: Vec<EnvEntry> = Vec::new();
    let nf = normalize(genv, &mut env, ty);
    proof {
        assert(env_view(Seq::<EnvEntry>::empty()) =~= Seq::<SpecEnvEntry>::empty());
    }
    parse_nf(&nf, bytes, pos)
}

/// The number of bytes a normal format reads, when that number is fixed by
/// the type alone: the width of a primitive, the literal count times the
/// element size for an array, and the sum over the fields of a record type.
pub open spec fn static_size(t: SpecTerm) -> Option<nat>
    decreases t,
{
    match t {
        SpecTerm::Prim(TypeConst::U(n, _)) => if int_size_ok(n) {
            Some(n as nat)
        } else {
            None
        },
        SpecTerm::Prim(TypeConst::S(n, _)) => if int_size_ok(n) {
            Some(n as nat)
        } else {
            None
        },
        SpecTerm::Prim(TypeConst::F(n, _)) => if n == 4 || n == 8 {
            Some(n as nat)
        } else {
            None
        },
        SpecTerm::ArrayType(l, e) => match *l {
            SpecTerm::IntConst(x) => if int_wf(x) && 0 <= int_value(x) <= usize::MAX as int {
                match static_size(*e) {
                    Some(k) => Some((int_value(x) * k) as nat),
                    None => None,
                }
            } else {
                None
            },
            _ => None,
        },
        SpecTerm::RecordTypeNil => Some(0),
        SpecTerm::RecordTypeCons(_, a, b) => match (static_size(*a), static_size(*b)) {
            (Some(x), Some(y)) => Some(x + y),
            _ => None,
        },
        _ => None,
    }
}

/// Normalisation does not change a fixed format size.
pub proof fn lemma_static_size_normalize(
    genv: Seq<SpecItemEntry>,
    env: Seq<SpecEnvEntry>,
    t: SpecTerm,
    k: nat,
)
    requires
        genv.len() == 0,
        static_size(t) == Some(k),
    ensures
        static_size(spec_normalize(genv, env, t)) == Some(k),
    decreases t,
{
    match t {
        SpecTerm::ArrayType(l, e) => {
            let ke = static_size(*e)->Some_0;
            lemma_static_size_normalize(genv, env, *e, ke);
            let nl = spec_normalize(genv, env, *l);
            let ne = spec_normalize(genv, env, *e);
            assert(*l matches SpecTerm::IntConst(_));
            assert(nl == *l);
            assert(spec_normalize(genv, env, t) == SpecTerm::ArrayType(Box::new(nl), Box::new(ne)));
            assert(static_size(SpecTerm::ArrayType(Box::new(nl), Box::new(ne))) == Some(k));
        },
        SpecTerm::RecordTypeCons(lbl, a, b) => {
            let ka = static_size(*a)->Some_0;
            let kb = static_size(*b)->Some_0;
            lemma_static_size_normalize(genv, env, *a, ka);
            lemma_static_size_normalize(genv, env.push(SpecEnvEntry::Rigid), *b, kb);
            let na = spec_normalize(genv, env, *a);
            let nb = spec_normalize(genv, env.push(SpecEnvEntry::Rigid), *b);
            assert(spec_normalize(genv, env, t) == SpecTerm::RecordTypeCons(
                lbl,
                Box::new(na),
                Box::new(nb),
            ));
            assert(static_size(SpecTerm::RecordTypeCons(lbl, Box::new(na), Box::new(nb))) == Some(
                k,
            ));
        },
        SpecTerm::Prim(_) => {
            assert(spec_normalize(genv, env, t) == t);
        },
        SpecTerm::RecordTypeNil => {
            assert(spec_normalize(genv, env, t) == t);
        },
        _ => {
            assert(static_size(t) is None);
        },
    }
}

/// Parsing a format of fixed size consumes exactly that many bytes: the sum
/// of the primitive sizes the type implies.
pub proof fn lemma_parse_consumed(ty: SpecTerm, bytes: Seq<u8>, pos: nat, k: nat)
    requires
        static_size(ty) == Some(k),
        spec_parse(ty, bytes, pos) is Ok,
    ensures
        spec_parse(ty, bytes, pos)->Ok_0.1 == pos + k,
    decreases record_type_count(ty), ty, 0int,
{
    match ty {
        SpecTerm::ArrayType(l, e) => {
            let x = (*l)->IntConst_0;
            let ke = static_size(*e)->Some_0;
            lemma_parse_array_consumed(*e, int_value(x) as nat, bytes, pos, ke);
        },
        SpecTerm::RecordTypeCons(_, t1, rest) => {
            let ka = static_size(*t1)->Some_0;
            let kb = static_size(*rest)->Some_0;
            lemma_parse_consumed(*t1, bytes, pos, ka);
            let (v, p1) = spec_parse(*t1, bytes, pos)->Ok_0;
            let benv = seq![SpecEnvEntry::Val(v)];
            let tail = spec_normalize(Seq::<SpecItemEntry>::empty(), benv, *rest);
            assert(env_counts_zero(benv)) by {
                assert(benv[0] == SpecEnvEntry::Val(v));
            }
            crate::semantics::lemma_normalize_count(Seq::<SpecItemEntry>::empty(), benv, *rest);
            lemma_static_size_normalize(Seq::<SpecItemEntry>::empty(), benv, *rest, kb);
            lemma_parse_consumed(tail, bytes, p1, kb);
        },
        _ => {},
    }
}

/// Sequence form of [`lemma_parse_consumed`]: `n` elements of a fixed size
/// consume `n` times that size.
pub proof fn lemma_parse_array_consumed(elem: SpecTerm, n: nat, bytes: Seq<u8>, pos: nat, ke: nat)
    requires
        static_size(elem) == Some(ke),
        spec_parse_array(elem, n, bytes, pos) is Ok,
    ensures
        spec_parse_array(elem, n, bytes, pos)->Ok_0.1 == pos + n * ke,
    decreases record_type_count(elem), elem, n as int,
{
    if n == 0 {
        assert(n * ke == 0) by (nonlinear_arith)
            requires
                n == 0,
        ;
    } else {
        lemma_parse_consumed(elem, bytes, pos, ke);
        let (v, p1) = spec_parse(elem, bytes, pos)->Ok_0;
        lemma_parse_array_consumed(elem, (n - 1) as nat, bytes, p1, ke);
        assert(ke + (n - 1) * ke == n * ke) by (nonlinear_arith);
    }
}


/// The dependent reading of "bytes consumed equals the sum of the sizes the
/// type implies": reading a dependent record reads the head field and then
/// the tail with the parsed value substituted in, and the total position is
/// the tail's final position. Together with [`lemma_parse_consumed`] on the
/// head and on the substituted tail, and [`lemma_parse_array_consumed`] for
/// an array whose length was parsed earlier, this pins the consumption of
/// dependent formats field by field.
pub proof fn lemma_parse_record_consumed(
    lbl: Seq<char>,
    t1: SpecTerm,
    rest: SpecTerm,
    bytes: Seq<u8>,
    pos: nat,
)
    requires
        spec_parse(
            SpecTerm::RecordTypeCons(lbl, Box::new(t1), Box::new(rest)),
            bytes,
            pos,
        ) is Ok,
    ensures
        spec_parse(t1, bytes, pos) is Ok,
        ({
            let (v, p1) = spec_parse(t1, bytes, pos)->Ok_0;
            let tail = spec_normalize(
                Seq::<SpecItemEntry>::empty(),
                seq![SpecEnvEntry::Val(v)],
                rest,
            );
            &&& spec_parse(tail, bytes, p1) is Ok
            &&& spec_parse(
                SpecTerm::RecordTypeCons(lbl, Box::new(t1), Box::new(rest)),
                bytes,
                pos,
            )->Ok_0.1 == spec_parse(tail, bytes, p1)->Ok_0.1
        }),
{
}

} // verus!
