//! Exact rational scalars.
//!
//! An executable scalar is a fraction of two `i128` values with a positive
//! denominator, reduced by the greatest common divisor after every operation.
//! Each operation mirrors a spec-level counterpart exactly, and reports
//! an overflow instead of wrapping when an intermediate product leaves the
//! symmetric `i128` range.

use vstd::arithmetic::div_mod::lemma_fundamental_div_mod;
use vstd::prelude::*;

verus! {

/// Mathematical value of a scalar: a fraction of unbounded integers with a
/// positive denominator. Fractions are kept reduced by `norm2`, which the
/// spec-level operations apply exactly as the executable ones do.
pub ghost struct RatS {
    pub n: int,
    pub d: int,
}

/// The symmetric range of magnitudes an executable scalar component may hold.
/// Excluding `i128::MIN` keeps negation and absolute value total.
pub open spec fn in_range(x: int) -> bool {
    -(i128::MAX as int) <= x <= i128::MAX as int
}

/// `g` divides `x` over the integers.
pub open spec fn divides(g: int, x: int) -> bool {
    exists|k: int| x == #[trigger] (k * g)
}

/// Magnitude of an integer.
pub open spec fn mag(x: int) -> nat {
    if x >= 0 {
        x as nat
    } else {
        (-x) as nat
    }
}

/// Euclid's greatest common divisor.
pub open spec fn gcd(a: nat, b: nat) -> nat
    decreases b,
{
    if b == 0 {
        a
    } else {
        gcd(b, (a % b) as nat)
    }
}

/// The reduced fraction `n / d`, for a positive denominator `d`.
pub open spec fn norm2(n: int, d: int) -> RatS
    recommends
        d > 0,
{
    let g = gcd(mag(n), mag(d)) as int;
    RatS { n: n / g, d: d / g }
}

/// Value equality of two fractions with positive denominators.
pub open spec fn rs_eq(a: RatS, b: RatS) -> bool {
    a.n * b.d == b.n * a.d
}

/// Well-formedness of a scalar value: positive denominator, components in
/// the symmetric range.
pub open spec fn rss_wf(a: RatS) -> bool {
    a.d > 0 && in_range(a.n) && in_range(a.d)
}

/// The integer `v` as a fraction.
pub open spec fn rs_int(v: int) -> RatS {
    RatS { n: v, d: 1 }
}

pub open spec fn rs_add(a: RatS, b: RatS) -> RatS {
    norm2(a.n * b.d + b.n * a.d, a.d * b.d)
}

pub open spec fn rs_add_ok(a: RatS, b: RatS) -> bool {
    in_range(a.n * b.d) && in_range(b.n * a.d) && in_range(a.n * b.d + b.n * a.d) && in_range(
        a.d * b.d,
    )
}

pub open spec fn rs_sub(a: RatS, b: RatS) -> RatS {
    norm2(a.n * b.d - b.n * a.d, a.d * b.d)
}

pub open spec fn rs_sub_ok(a: RatS, b: RatS) -> bool {
    in_range(a.n * b.d) && in_range(b.n * a.d) && in_range(a.n * b.d - b.n * a.d) && in_range(
        a.d * b.d,
    )
}

pub open spec fn rs_mul(a: RatS, b: RatS) -> RatS {
    norm2(a.n * b.n, a.d * b.d)
}

pub open spec fn rs_mul_ok(a: RatS, b: RatS) -> bool {
    in_range(a.n * b.n) && in_range(a.d * b.d)
}

pub open spec fn rs_neg(a: RatS) -> RatS {
    RatS { n: -a.n, d: a.d }
}

/// Division `a / b`, with the sign moved into the numerator so the
/// denominator stays positive.
pub open spec fn rs_div(a: RatS, b: RatS) -> RatS
    recommends
        b.n != 0,
{
    if b.n > 0 {
        norm2(a.n * b.d, a.d * b.n)
    } else {
        norm2(-(a.n * b.d), -(a.d * b.n))
    }
}

pub open spec fn rs_div_ok(a: RatS, b: RatS) -> bool {
    in_range(a.n * b.d) && in_range(a.d * b.n)
}

/// Executable exact rational scalar.
#[derive(Clone, Copy, Debug, PartialEq, Eq, Structural)]
pub struct Ratio {
    pub n: i128,
    pub d: i128,
}

impl View for Ratio {
    type V = RatS;

    open spec fn view(&self) -> RatS {
        RatS { n: self.n as int, d: self.d as int }
    }
}

impl Ratio {
    /// Well-formed: positive denominator, both components in the symmetric range.
    pub open spec fn wf(self) -> bool {
        rss_wf(self@)
    }

    pub fn from_int(v: i64) -> (r: Ratio)
        ensures
            r.wf(),
            r@ == rs_int(v as int),
    {
        Ratio { n: v as i128, d: 1 }
    }

    pub fn zero() -> (r: Ratio)
        ensures
            r.wf(),
            r@ == rs_int(0),
    {
        Ratio { n: 0, d: 1 }
    }

    /// The fraction `n / d` for a nonzero denominator, brought to a positive
    /// denominator and reduced.
    pub fn new(n: i64, d: i64) -> (r: Ratio)
        requires
            d != 0,
        ensures
            r.wf(),
            r@ == (if d > 0 {
                norm2(n as int, d as int)
            } else {
                norm2(-(n as int), -(d as int))
            }),
    {
        if d > 0 {
            reduce2(n as i128, d as i128)
        } else {
            reduce2(-(n as i128), -(d as i128))
        }
    }

    pub fn add(&self, other: &Ratio) -> (r: Option<Ratio>)
        requires
            self.wf(),
            other.wf(),
        ensures
            match r {
                Some(x) => rs_add_ok(self@, other@) && x.wf() && x@ == rs_add(self@, other@),
                None => !rs_add_ok(self@, other@),
            },
    {
        proof {
            lemma_pos_prod(self@.d, other@.d);
        }
        match (mul_rng(self.n, other.d), mul_rng(other.n, self.d), mul_rng(self.d, other.d)) {
            (Some(p1), Some(p2), Some(dd)) => match add_rng(p1, p2) {
                Some(s) => Some(reduce2(s, dd)),
                None => None,
            },
            _ => None,
        }
    }

    pub fn sub(&self, other: &Ratio) -> (r: Option<Ratio>)
        requires
            self.wf(),
            other.wf(),
        ensures
            match r {
                Some(x) => rs_sub_ok(self@, other@) && x.wf() && x@ == rs_sub(self@, other@),
                None => !rs_sub_ok(self@, other@),
            },
    {
        proof {
            lemma_pos_prod(self@.d, other@.d);
        }
        match (mul_rng(self.n, other.d), mul_rng(other.n, self.d), mul_rng(self.d, other.d)) {
            (Some(p1), Some(p2), Some(dd)) => match sub_rng(p1, p2) {
                Some(s) => Some(reduce2(s, dd)),
                None => None,
            },
            _ => None,
        }
    }

    pub fn mul(&self, other: &Ratio) -> (r: Option<Ratio>)
        requires
            self.wf(),
            other.wf(),
        ensures
            match r {
                Some(x) => rs_mul_ok(self@, other@) && x.wf() && x@ == rs_mul(self@, other@),
                None => !rs_mul_ok(self@, other@),
            },
    {
        proof {
            lemma_pos_prod(self@.d, other@.d);
        }
        match (mul_rng(self.n, other.n), mul_rng(self.d, other.d)) {
            (Some(nn), Some(dd)) => Some(reduce2(nn, dd)),
            _ => None,
        }
    }

    pub fn neg(&self) -> (r: Ratio)
        requires
            self.wf(),
        ensures
            r.wf(),
            r@ == rs_neg(self@),
    {
        Ratio { n: -self.n, d: self.d }
    }

    pub fn div(&self, other: &Ratio) -> (r: Option<Ratio>)
        requires
            self.wf(),
            other.wf(),
            other@.n != 0,
        ensures
            match r {
                Some(x) => rs_div_ok(self@, other@) && x.wf() && x@ == rs_div(self@, other@),
                None => !rs_div_ok(self@, other@),
            },
    {
        match (mul_rng(self.n, other.d), mul_rng(self.d, other.n)) {
            (Some(p), Some(q)) => {
                proof {
                    lemma_nonzero_prod(self@.d, other@.n);
                    assert((self@.d * other@.n > 0) == (other@.n > 0)) by (nonlinear_arith)
                        requires
                            self@.d > 0,
                    ;
                }
                if q > 0 {
                    Some(reduce2(p, q))
                } else {
                    Some(reduce2(-p, -q))
                }
            },
            _ => None,
        }
    }

    /// Sign test of the value: with a positive denominator the value is
    /// negative, zero or positive exactly as the numerator is.
    pub fn is_neg(&self) -> (r: bool)
        requires
            self.wf(),
        ensures
            r == (self@.n < 0),
    {
        self.n < 0
    }

    pub fn is_zero(&self) -> (r: bool)
        requires
            self.wf(),
        ensures
            r == (self@.n == 0),
    {
        self.n == 0
    }

    pub fn is_pos(&self) -> (r: bool)
        requires
            self.wf(),
        ensures
            r == (self@.n > 0),
    {
        self.n > 0
    }
}

proof fn lemma_pos_prod(a: int, b: int)
    by (nonlinear_arith)
    requires
        a > 0,
        b > 0,
    ensures
        a * b > 0,
{
}

proof fn lemma_nonzero_prod(a: int, b: int)
    by (nonlinear_arith)
    requires
        a != 0,
        b != 0,
    ensures
        a * b != 0,
{
}

/// Multiplication, reported as absent when the product leaves the symmetric range.
pub(crate) fn mul_rng(a: i128, b: i128) -> (r: Option<i128>)
    ensures
        match r {
            Some(v) => in_range(a as int * b as int) && v as int == a as int * b as int,
            None => !in_range(a as int * b as int),
        },
{
    match a.checked_mul(b) {
        Some(v) => if v == i128::MIN {
            None
        } else {
            Some(v)
        },
        None => None,
    }
}

pub(crate) fn add_rng(a: i128, b: i128) -> (r: Option<i128>)
    ensures
        match r {
            Some(v) => in_range(a as int + b as int) && v as int == a as int + b as int,
            None => !in_range(a as int + b as int),
        },
{
    match a.checked_add(b) {
        Some(v) => if v == i128::MIN {
            None
        } else {
            Some(v)
        },
        None => None,
    }
}

pub(crate) fn sub_rng(a: i128, b: i128) -> (r: Option<i128>)
    ensures
        match r {
            Some(v) => in_range(a as int - b as int) && v as int == a as int - b as int,
            None => !in_range(a as int - b as int),
        },
{
    match a.checked_sub(b) {
        Some(v) => if v == i128::MIN {
            None
        } else {
            Some(v)
        },
        None => None,
    }
}

/// Euclid's algorithm, mirroring the spec-level `gcd`.
pub fn gcd_u128(a0: u128, b0: u128) -> (g: u128)
    ensures
        g as nat == gcd(a0 as nat, b0 as nat),
{
    let mut a = a0;
    let mut b = b0;
    while b != 0
        invariant
            gcd(a as nat, b as nat) == gcd(a0 as nat, b0 as nat),
        decreases b,
    {
        let r = a % b;
        a = b;
        b = r;
    }
    a
}

/// Divisibility is transitive.
pub(crate) proof fn lemma_divides_trans(a: int, b: int, c: int)
    requires
        divides(a, b),
        divides(b, c),
    ensures
        divides(a, c),
{
    let k1 = choose|k: int| b == #[trigger] (k * a);
    let k2 = choose|k: int| c == #[trigger] (k * b);
    assert(c == (k2 * k1) * a) by (nonlinear_arith)
        requires
            b == k1 * a,
            c == k2 * b,
    ;
}

/// A divisor of the magnitude of `x` divides `x` itself.
pub(crate) proof fn lemma_divides_mag(g: int, x: int)
    requires
        divides(g, mag(x) as int),
    ensures
        divides(g, x),
{
    let k = choose|k: int| mag(x) as int == #[trigger] (k * g);
    if x >= 0 {
        assert(x == k * g);
    } else {
        assert(x == (-k) * g) by (nonlinear_arith)
            requires
                mag(x) as int == k * g,
                x == -(mag(x) as int),
        ;
    }
}

/// The greatest common divisor divides both arguments.
pub(crate) proof fn lemma_gcd_divides(a: nat, b: nat)
    ensures
        divides(gcd(a, b) as int, a as int),
        divides(gcd(a, b) as int, b as int),
    decreases b,
{
    if b == 0 {
        assert(a as int == 1 * (gcd(a, b) as int));
        assert(0int == 0 * (gcd(a, b) as int));
    } else {
        let r = (a % b) as nat;
        lemma_gcd_divides(b, r);
        let g = gcd(b, r) as int;
        let k1 = choose|k: int| b as int == #[trigger] (k * g);
        let k2 = choose|k: int| r as int == #[trigger] (k * g);
        lemma_fundamental_div_mod(a as int, b as int);
        let q = a as int / b as int;
        assert(a as int == (b as int) * q + (r as int));
        assert((b as int) * q == (k1 * g) * q);
        assert((k1 * g) * q + k2 * g == (q * k1 + k2) * g) by (nonlinear_arith);
        assert(a as int == (q * k1 + k2) * g);
    }
}

/// A divisor of a positive number is at least one.
pub(crate) proof fn lemma_gcd_pos(a: nat, b: nat)
    requires
        b > 0,
    ensures
        gcd(a, b) >= 1,
{
    lemma_gcd_divides(a, b);
    let g = gcd(a, b) as int;
    if g == 0 {
        let k = choose|k: int| b as int == #[trigger] (k * g);
        assert(b as int == k * 0);
    }
}

/// Exact division: if `g` divides `x`, dividing is the inverse of multiplying.
pub(crate) proof fn lemma_div_exact(x: int, g: int)
    requires
        g > 0,
        divides(g, x),
    ensures
        (x / g) * g == x,
{
    let k = choose|k: int| x == #[trigger] (k * g);
    assert(x / g == k) by (nonlinear_arith)
        requires
            g > 0,
            x == k * g,
    ;
}

/// Reduction preserves the value: the reduced fraction equals the raw one,
/// and its denominator stays positive.
pub proof fn lemma_norm2_eq(n: int, d: int)
    requires
        d > 0,
    ensures
        rs_eq(norm2(n, d), RatS { n, d }),
        norm2(n, d).d > 0,
{
    let g = gcd(mag(n), mag(d)) as int;
    lemma_gcd_pos(mag(n), mag(d));
    lemma_gcd_divides(mag(n), mag(d));
    lemma_divides_mag(g, n);
    lemma_divides_mag(g, d);
    lemma_div_exact(n, g);
    lemma_div_exact(d, g);
    let a = n / g;
    let b = d / g;
    assert(a * d == n * b) by (nonlinear_arith)
        requires
            a * g == n,
            b * g == d,
    ;
    assert(b > 0) by (nonlinear_arith)
        requires
            b * g == d,
            d > 0,
            g > 0,
    ;
}

/// Value equality of scalars is transitive over positive denominators.
pub proof fn lemma_rs_eq_trans(a: RatS, b: RatS, c: RatS)
    by (nonlinear_arith)
    requires
        a.d > 0,
        b.d > 0,
        c.d > 0,
        rs_eq(a, b),
        rs_eq(b, c),
    ensures
        rs_eq(a, c),
{
}

/// Magnitude of a scalar component in the symmetric range.
pub(crate) fn mag_u128(v: i128) -> (r: u128)
    requires
        in_range(v as int),
    ensures
        r as nat == mag(v as int),
{
    if v >= 0 {
        v as u128
    } else {
        (-v) as u128
    }
}

/// Divides `v` exactly by a positive divisor `g`, mirroring the spec-level
/// Euclidean quotient (the two agree because the division is exact).
pub(crate) fn div_exact_signed(v: i128, g: u128) -> (r: i128)
    requires
        g >= 1,
        in_range(v as int),
        divides(g as int, mag(v as int) as int),
    ensures
        r as int == v as int / (g as int),
        in_range(r as int),
        v > 0 ==> r >= 1,
{
    let va: u128 = mag_u128(v);
    let ghost gi = g as int;
    let m = va / g;
    proof {
        lemma_div_exact(va as int, gi);
        lemma_divides_mag(gi, v as int);
        lemma_div_exact(v as int, gi);
        assert(va as int / gi <= va as int) by (nonlinear_arith)
            requires
                gi >= 1,
                (va as int / gi) * gi == va as int,
                va as int >= 0,
                va as int / gi >= 0,
        ;
        if v < 0 {
            let k = choose|k: int| v as int == #[trigger] (k * gi);
            assert(v as int / gi == k) by (nonlinear_arith)
                requires
                    gi > 0,
                    v as int == k * gi,
            ;
            assert(va as int == (-k) * gi) by (nonlinear_arith)
                requires
                    v as int == k * gi,
                    va as int == -(v as int),
            ;
            assert(va as int / gi == -k) by (nonlinear_arith)
                requires
                    gi > 0,
                    va as int == (-k) * gi,
            ;
        }
        if v > 0 {
            assert(va as int / gi >= 1) by (nonlinear_arith)
                requires
                    gi > 0,
                    (va as int / gi) * gi == va as int,
                    va as int > 0,
            ;
        }
    }
    if v >= 0 {
        m as i128
    } else {
        -(m as i128)
    }
}

/// Reduces `n / d` (with `d` positive) by the greatest common divisor,
/// mirroring the spec-level `norm2`.
fn reduce2(n: i128, d: i128) -> (r: Ratio)
    requires
        d > 0,
        in_range(n as int),
    ensures
        r.wf(),
        r@ == norm2(n as int, d as int),
{
    let na: u128 = mag_u128(n);
    let da: u128 = mag_u128(d);
    proof {
        lemma_gcd_pos(na as nat, da as nat);
        lemma_gcd_divides(na as nat, da as nat);
    }
    let g = gcd_u128(na, da);
    let nm = div_exact_signed(n, g);
    let dm = div_exact_signed(d, g);
    Ratio { n: nm, d: dm }
}

} // verus!
