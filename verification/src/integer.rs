//! Arbitrary-precision integers.
//!
//! The language stores integer constants with unbounded precision. Values are
//! kept as a sign and a little-endian sequence of decimal digits in canonical
//! form (no leading zero digit, and zero is never negative). The language has
//! no integer arithmetic, so the operations end at construction, equality,
//! ordering, and conversion to a machine-sized count for array lengths.

use vstd::prelude::*;

verus! {

/// Mathematical model of an [`Integer`]: a sign and little-endian decimal
/// digits.
pub ghost struct SpecInt {
    pub negative: bool,
    pub digits: Seq<u8>,
}

/// The value of little-endian decimal digits.
pub open spec fn digits_value(s: Seq<u8>) -> int
    decreases s.len(),
{
    if s.len() == 0 {
        0
    } else {
        s[0] + 10 * digits_value(s.subrange(1, s.len() as int))
    }
}

/// Every digit is below ten.
pub open spec fn digits_ok(s: Seq<u8>) -> bool {
    forall|i: int| 0 <= i < s.len() ==> s[i] < 10
}

/// Digits are canonical: in range, and the most significant digit is nonzero.
pub open spec fn digits_canonical(s: Seq<u8>) -> bool {
    &&& digits_ok(s)
    &&& (s.len() > 0 ==> s[s.len() - 1] != 0)
}

/// Well-formed model: canonical digits, and zero is never negative.
pub open spec fn int_wf(i: SpecInt) -> bool {
    &&& digits_canonical(i.digits)
    &&& (i.negative ==> i.digits.len() > 0)
}

/// The signed value of a model integer.
pub open spec fn int_value(i: SpecInt) -> int {
    if i.negative {
        -digits_value(i.digits)
    } else {
        digits_value(i.digits)
    }
}

/// Ten to the power `n`.
pub open spec fn pow10(n: nat) -> int
    decreases n,
{
    if n == 0 {
        1
    } else {
        10 * pow10((n - 1) as nat)
    }
}

pub proof fn lemma_pow10_positive(n: nat)
    ensures
        pow10(n) >= 1,
    decreases n,
{
    if n > 0 {
        lemma_pow10_positive((n - 1) as nat);
    }
}

pub proof fn lemma_pow10_monotone(m: nat, n: nat)
    requires
        m <= n,
    ensures
        pow10(m) <= pow10(n),
    decreases n,
{
    if m < n {
        lemma_pow10_monotone(m, (n - 1) as nat);
        lemma_pow10_positive((n - 1) as nat);
    }
}

/// In-range digits denote a value in `[0, 10^len)`.
pub proof fn lemma_digits_value_bound(s: Seq<u8>)
    requires
        digits_ok(s),
    ensures
        0 <= digits_value(s) < pow10(s.len()),
    decreases s.len(),
{
    if s.len() > 0 {
        let rest = s.subrange(1, s.len() as int);
        assert(digits_ok(rest));
        lemma_digits_value_bound(rest);
        assert(s[0] < 10);
        assert(digits_value(s) == s[0] + 10 * digits_value(rest));
        assert(10 * digits_value(rest) <= 10 * (pow10(rest.len()) - 1)) by (nonlinear_arith)
            requires
                digits_value(rest) <= pow10(rest.len()) - 1,
        ;
    }
}

/// Canonical nonempty digits denote a value of at least `10^(len-1)`.
pub proof fn lemma_digits_value_low(s: Seq<u8>)
    requires
        digits_canonical(s),
        s.len() > 0,
    ensures
        digits_value(s) >= pow10((s.len() - 1) as nat),
    decreases s.len(),
{
    let rest = s.subrange(1, s.len() as int);
    if s.len() == 1 {
        assert(s[s.len() - 1] != 0);
        assert(digits_value(rest) == 0);
    } else {
        assert(digits_canonical(rest));
        assert(rest[rest.len() - 1] == s[s.len() - 1]);
        lemma_digits_value_low(rest);
        assert(10 * digits_value(rest) >= 10 * pow10((rest.len() - 1) as nat)) by (nonlinear_arith)
            requires
                digits_value(rest) >= pow10((rest.len() - 1) as nat),
        ;
    }
}

/// Appending a most-significant digit adds `d * 10^len`.
pub proof fn lemma_digits_value_push(s: Seq<u8>, d: u8)
    ensures
        digits_value(s.push(d)) == digits_value(s) + d * pow10(s.len()),
    decreases s.len(),
{
    let p = s.push(d);
    if s.len() == 0 {
        assert(p.len() == 1);
        assert(p[0] == d);
        assert(p.subrange(1, 1) =~= Seq::<u8>::empty());
        assert(digits_value(p.subrange(1, 1)) == 0);
        assert(digits_value(p) == p[0] + 10 * digits_value(p.subrange(1, 1)));
    } else {
        let srest = s.subrange(1, s.len() as int);
        lemma_digits_value_push(srest, d);
        assert(p.subrange(1, p.len() as int) =~= srest.push(d));
        assert(digits_value(p) == p[0] + 10 * digits_value(srest.push(d)));
        assert(10 * (digits_value(srest) + d * pow10(srest.len())) == 10 * digits_value(srest) + d
            * (10 * pow10(srest.len()))) by (nonlinear_arith);
    }
}

/// Splitting digits at position `k` splits the value at weight `10^k`.
pub proof fn lemma_digits_value_split(s: Seq<u8>, k: int)
    requires
        0 <= k <= s.len(),
    ensures
        digits_value(s) == digits_value(s.subrange(0, k)) + pow10(k as nat) * digits_value(
            s.subrange(k, s.len() as int),
        ),
    decreases k,
{
    if k == 0 {
        assert(s.subrange(0, 0) =~= Seq::<u8>::empty());
        assert(s.subrange(0, s.len() as int) =~= s);
    } else if s.len() == 0 {
    } else {
        let rest = s.subrange(1, s.len() as int);
        lemma_digits_value_split(rest, k - 1);
        assert(rest.subrange(0, k - 1) =~= s.subrange(0, k).subrange(1, k));
        assert(rest.subrange(k - 1, rest.len() as int) =~= s.subrange(k, s.len() as int));
        assert(digits_value(s.subrange(0, k)) == s[0] + 10 * digits_value(rest.subrange(0, k - 1)));
        assert(10 * (digits_value(rest.subrange(0, k - 1)) + pow10((k - 1) as nat) * digits_value(
            rest.subrange(k - 1, rest.len() as int),
        )) == 10 * digits_value(rest.subrange(0, k - 1)) + (10 * pow10((k - 1) as nat))
            * digits_value(rest.subrange(k - 1, rest.len() as int))) by (nonlinear_arith);
    }
}

/// The canonical little-endian decimal digits of a natural number.
pub open spec fn spec_digits_of(n: nat) -> Seq<u8>
    decreases n,
{
    if n == 0 {
        Seq::empty()
    } else {
        seq![(n % 10) as u8] + spec_digits_of(n / 10)
    }
}

/// The canonical model integer of a value.
pub open spec fn spec_int_of(v: int) -> SpecInt {
    if v >= 0 {
        SpecInt { negative: false, digits: spec_digits_of(v as nat) }
    } else {
        SpecInt { negative: true, digits: spec_digits_of((-v) as nat) }
    }
}

/// The canonical digits of a value are canonical and denote it.
pub proof fn lemma_spec_digits_of(n: nat)
    ensures
        digits_canonical(spec_digits_of(n)),
        digits_value(spec_digits_of(n)) == n,
        n > 0 ==> spec_digits_of(n).len() > 0,
    decreases n,
{
    if n > 0 {
        lemma_spec_digits_of(n / 10);
        let s = spec_digits_of(n);
        let rest = spec_digits_of(n / 10);
        assert(s == seq![(n % 10) as u8] + rest);
        assert(s.subrange(1, s.len() as int) =~= rest);
        assert(s[0] == (n % 10) as u8);
        assert(digits_value(s) == n % 10 + 10 * digits_value(rest));
        if n / 10 == 0 {
            assert(n < 10);
            assert(s.len() == 1);
            assert(s[s.len() - 1] == n % 10);
        } else {
            assert(rest.len() > 0);
            assert(s[s.len() - 1] == rest[rest.len() - 1]);
        }
    }
}

/// The canonical model of a value is well formed and denotes it.
pub proof fn lemma_spec_int_of(v: int)
    ensures
        int_wf(spec_int_of(v)),
        int_value(spec_int_of(v)) == v,
{
    if v >= 0 {
        lemma_spec_digits_of(v as nat);
    } else {
        lemma_spec_digits_of((-v) as nat);
    }
}

/// Canonical digit strings denote distinct values: the decimal form of a
/// value is unique.
pub proof fn lemma_digits_value_injective(s1: Seq<u8>, s2: Seq<u8>)
    requires
        digits_canonical(s1),
        digits_canonical(s2),
        digits_value(s1) == digits_value(s2),
    ensures
        s1 =~= s2,
    decreases s1.len(),
{
    lemma_digits_value_bound(s1);
    lemma_digits_value_bound(s2);
    if s1.len() == 0 {
        if s2.len() > 0 {
            lemma_digits_value_low(s2);
            lemma_pow10_positive((s2.len() - 1) as nat);
        }
    } else if s2.len() == 0 {
        lemma_digits_value_low(s1);
        lemma_pow10_positive((s1.len() - 1) as nat);
    } else {
        let r1 = s1.subrange(1, s1.len() as int);
        let r2 = s2.subrange(1, s2.len() as int);
        lemma_digits_value_bound(r1);
        lemma_digits_value_bound(r2);
        assert(digits_value(s1) == s1[0] + 10 * digits_value(r1));
        assert(digits_value(s2) == s2[0] + 10 * digits_value(r2));
        assert(s1[0] == s2[0] && digits_value(r1) == digits_value(r2)) by (nonlinear_arith)
            requires
                s1[0] + 10 * digits_value(r1) == s2[0] + 10 * digits_value(r2),
                0 <= s1[0] < 10,
                0 <= s2[0] < 10,
                digits_value(r1) >= 0,
                digits_value(r2) >= 0,
        ;
        if r1.len() > 0 && r2.len() > 0 {
            assert(digits_canonical(r1));
            assert(digits_canonical(r2));
            lemma_digits_value_injective(r1, r2);
        } else if r1.len() == 0 && r2.len() > 0 {
            assert(digits_canonical(r2));
            lemma_digits_value_low(r2);
            lemma_pow10_positive((r2.len() - 1) as nat);
        } else if r2.len() == 0 && r1.len() > 0 {
            assert(digits_canonical(r1));
            lemma_digits_value_low(r1);
            lemma_pow10_positive((r1.len() - 1) as nat);
        }
        assert(s1 =~= seq![s1[0]] + r1);
        assert(s2 =~= seq![s2[0]] + r2);
    }
}

/// Well-formed integers with the same value are identical.
pub proof fn lemma_int_value_injective(a: SpecInt, b: SpecInt)
    requires
        int_wf(a),
        int_wf(b),
        int_value(a) == int_value(b),
    ensures
        a == b,
{
    lemma_digits_value_bound(a.digits);
    lemma_digits_value_bound(b.digits);
    if a.negative && a.digits.len() > 0 {
        lemma_digits_value_low(a.digits);
        lemma_pow10_positive((a.digits.len() - 1) as nat);
    }
    if b.negative && b.digits.len() > 0 {
        lemma_digits_value_low(b.digits);
        lemma_pow10_positive((b.digits.len() - 1) as nat);
    }
    if a.negative == b.negative {
        lemma_digits_value_injective(a.digits, b.digits);
        assert(a.digits =~= b.digits);
    }
}

/// An arbitrary-precision integer in canonical decimal form.
#[derive(Debug)]
pub struct Integer {
    pub negative: bool,
    pub digits: Vec<u8>,
}

impl View for Integer {
    type V = SpecInt;

    open spec fn view(&self) -> SpecInt {
        SpecInt { negative: self.negative, digits: self.digits@ }
    }
}

impl Clone for Integer {
    fn clone(&self) -> (r: Self)
        ensures
            r@ == self@,
    {
        let mut digits: Vec<u8> = Vec::new();
        let mut i: usize = 0;
        while i < self.digits.len()
            invariant
                i <= self.digits.len(),
                digits@ =~= self.digits@.subrange(0, i as int),
            decreases self.digits.len() - i,
        {
            digits.push(self.digits[i]);
            i = i + 1;
        }
        proof {
            assert(digits@ =~= self.digits@);
        }
        Integer { negative: self.negative, digits }
    }
}

impl Integer {
    /// The integer is well formed: canonical digits, zero never negative.
    pub open spec fn wf(&self) -> bool {
        int_wf(self@)
    }

    /// The mathematical value.
    pub open spec fn value(&self) -> int {
        int_value(self@)
    }

    /// Whether the value is negative.
    pub fn is_negative(&self) -> (r: bool)
        ensures
            r == self@.negative,
    {
        self.negative
    }

    /// The number of decimal digits.
    pub fn digit_count(&self) -> (r: usize)
        ensures
            r == self@.digits.len(),
    {
        self.digits.len()
    }

    /// The unsigned value `v`, in canonical decimal form.
    pub fn from_u64(v: u64) -> (r: Integer)
        ensures
            r.wf(),
            r.value() == v as int,
            !r@.negative,
            r@ == spec_int_of(v as int),
    {
        proof {
            lemma_spec_int_of(v as int);
        }
        let mut digits: Vec<u8> = Vec::new();
        let mut x: u64 = v;
        while x > 0
            invariant
                digits_ok(digits@),
                digits_value(digits@) + x * pow10(digits@.len()) == v as int,
                x == 0 ==> (digits@.len() > 0 ==> digits@[digits@.len() - 1] != 0),
                x > 0 ==> (digits@.len() > 0 ==> x >= 1),
            decreases x,
        {
            let ghost old_digits = digits@;
            let ghost old_x = x as int;
            let d: u8 = (x % 10) as u8;
            digits.push(d);
            x = x / 10;
            proof {
                lemma_digits_value_push(old_digits, d);
                assert((old_x / 10) * pow10(old_digits.len() + 1) == (old_x % 10) * pow10(
                    old_digits.len(),
                ) + (old_x / 10) * pow10(old_digits.len() + 1) - (old_x % 10) * pow10(
                    old_digits.len(),
                ));
                assert(old_x % 10 + 10 * (old_x / 10) == old_x);
                assert((old_x % 10) * pow10(old_digits.len()) + (old_x / 10) * (10 * pow10(
                    old_digits.len(),
                )) == old_x * pow10(old_digits.len())) by (nonlinear_arith)
                    requires
                        old_x % 10 + 10 * (old_x / 10) == old_x,
                ;
                if x == 0 {
                    assert(d == old_x % 10);
                    assert(old_x > 0 && old_x / 10 == 0);
                    assert(d != 0);
                }
            }
        }
        proof {
            assert(digits_value(digits@) == v as int);
        }
        let r = Integer { negative: false, digits };
        proof {
            lemma_int_value_injective(r@, spec_int_of(v as int));
        }
        r
    }

    /// The signed value `v`, in canonical decimal form.
    pub fn from_i64(v: i64) -> (r: Integer)
        ensures
            r.wf(),
            r.value() == v as int,
            r@ == spec_int_of(v as int),
    {
        proof {
            lemma_spec_int_of(v as int);
        }
        if v >= 0 {
            Integer::from_u64(v as u64)
        } else {
            let wide: i128 = v as i128;
            let mag: u64 = (-wide) as u64;
            let base = Integer::from_u64(mag);
            proof {
                assert(mag as int == -(v as int));
                assert(base.value() > 0);
                if base@.digits.len() == 0 {
                    assert(digits_value(base@.digits) == 0);
                }
            }
            let r = Integer { negative: true, digits: base.digits };
            proof {
                lemma_int_value_injective(r@, spec_int_of(v as int));
            }
            r
        }
    }

    /// Structural (and, for well-formed integers, numeric) equality.
    pub fn eq(&self, other: &Integer) -> (r: bool)
        ensures
            r == (self@ == other@),
    {
        if self.negative != other.negative {
            proof {
                assert(self@ != other@);
            }
            return false;
        }
        if self.digits.len() != other.digits.len() {
            proof {
                assert(self@.digits.len() != other@.digits.len());
            }
            return false;
        }
        let mut i: usize = 0;
        while i < self.digits.len()
            invariant
                i <= self.digits.len(),
                self.digits.len() == other.digits.len(),
                self.negative == other.negative,
                forall|j: int| 0 <= j < i ==> self.digits@[j] == other.digits@[j],
            decreases self.digits.len() - i,
        {
            if self.digits[i] != other.digits[i] {
                proof {
                    assert(self@.digits[i as int] != other@.digits[i as int]);
                }
                return false;
            }
            i = i + 1;
        }
        proof {
            assert(self@.digits =~= other@.digits);
        }
        true
    }

    /// Strict order on values.
    pub fn lt(&self, other: &Integer) -> (r: bool)
        requires
            self.wf(),
            other.wf(),
        ensures
            r == (self.value() < other.value()),
    {
        proof {
            lemma_digits_value_bound(self@.digits);
            lemma_digits_value_bound(other@.digits);
            if self@.negative {
                lemma_digits_value_low(self@.digits);
            }
            if other@.negative {
                lemma_digits_value_low(other@.digits);
                lemma_pow10_positive((other@.digits.len() - 1) as nat);
            }
            if self@.negative {
                lemma_pow10_positive((self@.digits.len() - 1) as nat);
            }
        }
        if self.negative && !other.negative {
            true
        } else if !self.negative && other.negative {
            false
        } else if !self.negative {
            Integer::digits_lt(&self.digits, &other.digits)
        } else {
            Integer::digits_lt(&other.digits, &self.digits)
        }
    }

    /// Strict order on the values of two canonical digit strings.
    fn digits_lt(a: &Vec<u8>, b: &Vec<u8>) -> (r: bool)
        requires
            digits_canonical(a@),
            digits_canonical(b@),
        ensures
            r == (digits_value(a@) < digits_value(b@)),
    {
        proof {
            lemma_digits_value_bound(a@);
            lemma_digits_value_bound(b@);
        }
        if a.len() < b.len() {
            proof {
                lemma_digits_value_low(b@);
                lemma_pow10_monotone(a@.len(), (b@.len() - 1) as nat);
            }
            return true;
        }
        if a.len() > b.len() {
            proof {
                lemma_digits_value_low(a@);
                lemma_pow10_monotone(b@.len(), (a@.len() - 1) as nat);
            }
            return false;
        }
        let n: usize = a.len();
        let mut i: usize = n;
        while i > 0
            invariant
                i <= n,
                n == a@.len(),
                n == b@.len(),
                digits_canonical(a@),
                digits_canonical(b@),
                digits_value(a@.subrange(i as int, n as int)) == digits_value(
                    b@.subrange(i as int, n as int),
                ),
            decreases i,
        {
            let ghost asuf = a@.subrange(i - 1, n as int);
            let ghost bsuf = b@.subrange(i - 1, n as int);
            proof {
                assert(asuf.subrange(1, asuf.len() as int) =~= a@.subrange(i as int, n as int));
                assert(bsuf.subrange(1, bsuf.len() as int) =~= b@.subrange(i as int, n as int));
                assert(digits_value(asuf) == a@[i - 1] + 10 * digits_value(
                    a@.subrange(i as int, n as int),
                ));
                assert(digits_value(bsuf) == b@[i - 1] + 10 * digits_value(
                    b@.subrange(i as int, n as int),
                ));
            }
            if a[i - 1] != b[i - 1] {
                let r = a[i - 1] < b[i - 1];
                proof {
                    lemma_digits_value_split(a@, i - 1);
                    lemma_digits_value_split(b@, i - 1);
                    let pa = a@.subrange(0, i - 1);
                    let pb = b@.subrange(0, i - 1);
                    assert(digits_ok(pa));
                    assert(digits_ok(pb));
                    lemma_digits_value_bound(pa);
                    lemma_digits_value_bound(pb);
                    lemma_pow10_positive((i - 1) as nat);
                    if a@[i - 1] < b@[i - 1] {
                        assert(digits_value(asuf) + 1 <= digits_value(bsuf));
                        assert(pow10((i - 1) as nat) * digits_value(asuf) + pow10((i - 1) as nat)
                            <= pow10((i - 1) as nat) * digits_value(bsuf)) by (nonlinear_arith)
                            requires
                                digits_value(asuf) + 1 <= digits_value(bsuf),
                                pow10((i - 1) as nat) >= 1,
                        ;
                        assert(digits_value(pa) < pow10((i - 1) as nat));
                    } else {
                        assert(digits_value(bsuf) + 1 <= digits_value(asuf));
                        assert(pow10((i - 1) as nat) * digits_value(bsuf) + pow10((i - 1) as nat)
                            <= pow10((i - 1) as nat) * digits_value(asuf)) by (nonlinear_arith)
                            requires
                                digits_value(bsuf) + 1 <= digits_value(asuf),
                                pow10((i - 1) as nat) >= 1,
                        ;
                        assert(digits_value(pb) < pow10((i - 1) as nat));
                    }
                }
                return r;
            }
            i = i - 1;
        }
        proof {
            assert(a@.subrange(0, n as int) =~= a@);
            assert(b@.subrange(0, n as int) =~= b@);
        }
        false
    }

    /// Whether the representation is canonical, that is, well formed.
    pub fn is_canonical(&self) -> (r: bool)
        ensures
            r == self.wf(),
    {
        if self.negative && self.digits.len() == 0 {
            return false;
        }
        if self.digits.len() > 0 && self.digits[self.digits.len() - 1] == 0 {
            return false;
        }
        let mut i: usize = 0;
        while i < self.digits.len()
            invariant
                i <= self.digits.len(),
                forall|j: int| 0 <= j < i ==> self.digits@[j] < 10,
            decreases self.digits.len() - i,
        {
            if self.digits[i] >= 10 {
                return false;
            }
            i = i + 1;
        }
        true
    }

    /// The value as a machine-sized count, or `None` when the value is
    /// negative or exceeds the platform limit.
    pub fn to_usize(&self) -> (r: Option<usize>)
        requires
            self.wf(),
        ensures
            match r {
                Some(u) => u as int == self.value(),
                None => self.value() < 0 || self.value() > usize::MAX as int,
            },
    {
        if self.negative {
            proof {
                lemma_digits_value_low(self@.digits);
                lemma_pow10_positive((self@.digits.len() - 1) as nat);
            }
            return None;
        }
        let n: usize = self.digits.len();
        let mut acc: usize = 0;
        let mut i: usize = n;
        while i > 0
            invariant
                i <= n,
                n == self@.digits.len(),
                digits_canonical(self@.digits),
                !self@.negative,
                acc as int == digits_value(self@.digits.subrange(i as int, n as int)),
            decreases i,
        {
            let d: u8 = self.digits[i - 1];
            let ghost suf = self@.digits.subrange(i - 1, n as int);
            proof {
                assert(suf.subrange(1, suf.len() as int) =~= self@.digits.subrange(
                    i as int,
                    n as int,
                ));
                assert(digits_value(suf) == d + 10 * (acc as int));
            }
            if acc > (usize::MAX - (d as usize)) / 10 {
                proof {
                    let limit = (usize::MAX - (d as usize)) as int;
                    assert(10 * (acc as int) > limit) by (nonlinear_arith)
                        requires
                            acc as int >= limit / 10 + 1,
                            limit >= 0,
                            limit / 10 >= 0,
                            10 * (limit / 10) + limit % 10 == limit,
                            limit % 10 < 10,
                    ;
                    assert(digits_value(suf) > usize::MAX as int);
                    lemma_digits_value_split(self@.digits, i - 1);
                    let pre = self@.digits.subrange(0, i - 1);
                    assert(digits_ok(pre));
                    lemma_digits_value_bound(pre);
                    lemma_pow10_positive((i - 1) as nat);
                    assert(pow10((i - 1) as nat) * digits_value(suf) >= digits_value(suf))
                        by (nonlinear_arith)
                        requires
                            pow10((i - 1) as nat) >= 1,
                            digits_value(suf) >= 0,
                    ;
                }
                return None;
            }
            proof {
                let limit = (usize::MAX - (d as usize)) as int;
                assert(10 * (acc as int) <= limit) by (nonlinear_arith)
                    requires
                        acc as int <= limit / 10,
                        limit >= 0,
                        10 * (limit / 10) + limit % 10 == limit,
                        limit % 10 >= 0,
                ;
            }
            acc = acc * 10 + (d as usize);
            i = i - 1;
        }
        proof {
            assert(self@.digits.subrange(0, n as int) =~= self@.digits);
        }
        Some(acc)
    }
}

} // verus!
