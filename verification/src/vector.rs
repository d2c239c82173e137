//! Exact 3-vectors.
//!
//! A vector holds three numerators over one shared positive denominator, all
//! `i128`, reduced by their common divisor after every operation. As with
//! scalars, each executable operation mirrors a spec-level counterpart and
//! reports an overflow instead of wrapping.

use crate::rational::{
    add_rng, div_exact_signed, divides, gcd, gcd_u128, in_range, lemma_div_exact,
    lemma_divides_mag, lemma_divides_trans, lemma_gcd_divides, lemma_gcd_pos, lemma_norm2_eq,
    lemma_rs_eq_trans, mag, mag_u128, mul_rng, norm2, rs_eq, sub_rng, RatS, Ratio,
};
use vstd::prelude::*;

verus! {

/// Mathematical value of a vector: three numerators over one positive
/// denominator, all unbounded integers.
pub ghost struct Vec3S {
    pub x: int,
    pub y: int,
    pub z: int,
    pub d: int,
}

/// The reduced form of `(x, y, z) / d`, for a positive denominator `d`.
pub open spec fn norm4(x: int, y: int, z: int, d: int) -> Vec3S
    recommends
        d > 0,
{
    let g = gcd(gcd(gcd(mag(x), mag(y)), mag(z)), mag(d)) as int;
    Vec3S { x: x / g, y: y / g, z: z / g, d: d / g }
}

/// Value equality of two vectors with positive denominators.
pub open spec fn vs_eq(a: Vec3S, b: Vec3S) -> bool {
    a.x * b.d == b.x * a.d && a.y * b.d == b.y * a.d && a.z * b.d == b.z * a.d
}

/// The integer triple `(x, y, z)` as a vector.
pub open spec fn vs_int(x: int, y: int, z: int) -> Vec3S {
    Vec3S { x, y, z, d: 1 }
}

pub open spec fn vs_add(a: Vec3S, b: Vec3S) -> Vec3S {
    norm4(a.x * b.d + b.x * a.d, a.y * b.d + b.y * a.d, a.z * b.d + b.z * a.d, a.d * b.d)
}

pub open spec fn vs_add_ok(a: Vec3S, b: Vec3S) -> bool {
    in_range(a.x * b.d) && in_range(b.x * a.d) && in_range(a.x * b.d + b.x * a.d) && in_range(
        a.y * b.d,
    ) && in_range(b.y * a.d) && in_range(a.y * b.d + b.y * a.d) && in_range(a.z * b.d) && in_range(
        b.z * a.d,
    ) && in_range(a.z * b.d + b.z * a.d) && in_range(a.d * b.d)
}

pub open spec fn vs_sub(a: Vec3S, b: Vec3S) -> Vec3S {
    norm4(a.x * b.d - b.x * a.d, a.y * b.d - b.y * a.d, a.z * b.d - b.z * a.d, a.d * b.d)
}

pub open spec fn vs_sub_ok(a: Vec3S, b: Vec3S) -> bool {
    in_range(a.x * b.d) && in_range(b.x * a.d) && in_range(a.x * b.d - b.x * a.d) && in_range(
        a.y * b.d,
    ) && in_range(b.y * a.d) && in_range(a.y * b.d - b.y * a.d) && in_range(a.z * b.d) && in_range(
        b.z * a.d,
    ) && in_range(a.z * b.d - b.z * a.d) && in_range(a.d * b.d)
}

/// Scaling a vector by a scalar.
pub open spec fn vs_scale(a: Vec3S, t: RatS) -> Vec3S {
    norm4(a.x * t.n, a.y * t.n, a.z * t.n, a.d * t.d)
}

pub open spec fn vs_scale_ok(a: Vec3S, t: RatS) -> bool {
    in_range(a.x * t.n) && in_range(a.y * t.n) && in_range(a.z * t.n) && in_range(a.d * t.d)
}

/// Dot product of two vectors, as a scalar.
pub open spec fn vs_dot(a: Vec3S, b: Vec3S) -> RatS {
    norm2(a.x * b.x + a.y * b.y + a.z * b.z, a.d * b.d)
}

pub open spec fn vs_dot_ok(a: Vec3S, b: Vec3S) -> bool {
    in_range(a.x * b.x) && in_range(a.y * b.y) && in_range(a.z * b.z) && in_range(
        a.x * b.x + a.y * b.y,
    ) && in_range(a.x * b.x + a.y * b.y + a.z * b.z) && in_range(a.d * b.d)
}

/// Cross product of two vectors.
pub open spec fn vs_cross(a: Vec3S, b: Vec3S) -> Vec3S {
    norm4(
        a.y * b.z - a.z * b.y,
        a.z * b.x - a.x * b.z,
        a.x * b.y - a.y * b.x,
        a.d * b.d,
    )
}

pub open spec fn vs_cross_ok(a: Vec3S, b: Vec3S) -> bool {
    in_range(a.y * b.z) && in_range(a.z * b.y) && in_range(a.y * b.z - a.z * b.y) && in_range(
        a.z * b.x,
    ) && in_range(a.x * b.z) && in_range(a.z * b.x - a.x * b.z) && in_range(a.x * b.y) && in_range(
        a.y * b.x,
    ) && in_range(a.x * b.y - a.y * b.x) && in_range(a.d * b.d)
}

pub open spec fn vs_neg(a: Vec3S) -> Vec3S {
    Vec3S { x: -a.x, y: -a.y, z: -a.z, d: a.d }
}

/// The zero vector, as a value: all numerators zero.
pub open spec fn vs_is_zero(a: Vec3S) -> bool {
    a.x == 0 && a.y == 0 && a.z == 0
}

/// Well-formedness of a vector value: positive denominator, components in
/// the symmetric range.
pub open spec fn vss_wf(v: Vec3S) -> bool {
    v.d > 0 && in_range(v.x) && in_range(v.y) && in_range(v.z) && in_range(v.d)
}

/// Executable exact 3-vector.
#[derive(Clone, Copy, Debug, PartialEq, Eq, Structural)]
pub struct Vec3R {
    pub x: i128,
    pub y: i128,
    pub z: i128,
    pub d: i128,
}

impl View for Vec3R {
    type V = Vec3S;

    open spec fn view(&self) -> Vec3S {
        Vec3S { x: self.x as int, y: self.y as int, z: self.z as int, d: self.d as int }
    }
}

impl Vec3R {
    /// Well-formed: positive denominator, all components in the symmetric range.
    pub open spec fn wf(self) -> bool {
        vss_wf(self@)
    }

    pub fn from_ints(x: i64, y: i64, z: i64) -> (r: Vec3R)
        ensures
            r.wf(),
            r@ == vs_int(x as int, y as int, z as int),
    {
        Vec3R { x: x as i128, y: y as i128, z: z as i128, d: 1 }
    }

    /// A vector from three scalar coordinates, brought to the shared
    /// denominator and reduced.
    pub fn from_ratios(x: &Ratio, y: &Ratio, z: &Ratio) -> (r: Option<Vec3R>)
        requires
            x.wf(),
            y.wf(),
            z.wf(),
        ensures
            match r {
                Some(v) => vs_ratios_ok(x@, y@, z@) && v.wf() && v@ == vs_from_ratios(x@, y@, z@),
                None => !vs_ratios_ok(x@, y@, z@),
            },
    {
        proof {
            lemma_pos_prod3(x@.d, y@.d, z@.d);
        }
        match (mul_rng(x.d, y.d), mul_rng(y.d, z.d), mul_rng(x.d, z.d)) {
            (Some(dxy), Some(dyz), Some(dxz)) => match (
                mul_rng(x.n, dyz),
                mul_rng(y.n, dxz),
                mul_rng(z.n, dxy),
                mul_rng(dxy, z.d),
            ) {
                (Some(nx), Some(ny), Some(nz), Some(dd)) => Some(reduce4(nx, ny, nz, dd)),
                _ => None,
            },
            _ => None,
        }
    }

    pub fn add(&self, other: &Vec3R) -> (r: Option<Vec3R>)
        requires
            self.wf(),
            other.wf(),
        ensures
            match r {
                Some(v) => vs_add_ok(self@, other@) && v.wf() && v@ == vs_add(self@, other@),
                None => !vs_add_ok(self@, other@),
            },
    {
        proof {
            lemma_pos_prod2(self@.d, other@.d);
        }
        let a = self;
        let b = other;
        match (mul_rng(a.x, b.d), mul_rng(b.x, a.d), mul_rng(a.y, b.d), mul_rng(b.y, a.d)) {
            (Some(x1), Some(x2), Some(y1), Some(y2)) => match (
                mul_rng(a.z, b.d),
                mul_rng(b.z, a.d),
                mul_rng(a.d, b.d),
            ) {
                (Some(z1), Some(z2), Some(dd)) => match (
                    add_rng(x1, x2),
                    add_rng(y1, y2),
                    add_rng(z1, z2),
                ) {
                    (Some(xs), Some(ys), Some(zs)) => Some(reduce4(xs, ys, zs, dd)),
                    _ => None,
                },
                _ => None,
            },
            _ => None,
        }
    }

    pub fn sub(&self, other: &Vec3R) -> (r: Option<Vec3R>)
        requires
            self.wf(),
            other.wf(),
        ensures
            match r {
                Some(v) => vs_sub_ok(self@, other@) && v.wf() && v@ == vs_sub(self@, other@),
                None => !vs_sub_ok(self@, other@),
            },
    {
        proof {
            lemma_pos_prod2(self@.d, other@.d);
        }
        let a = self;
        let b = other;
        match (mul_rng(a.x, b.d), mul_rng(b.x, a.d), mul_rng(a.y, b.d), mul_rng(b.y, a.d)) {
            (Some(x1), Some(x2), Some(y1), Some(y2)) => match (
                mul_rng(a.z, b.d),
                mul_rng(b.z, a.d),
                mul_rng(a.d, b.d),
            ) {
                (Some(z1), Some(z2), Some(dd)) => match (
                    sub_rng(x1, x2),
                    sub_rng(y1, y2),
                    sub_rng(z1, z2),
                ) {
                    (Some(xs), Some(ys), Some(zs)) => Some(reduce4(xs, ys, zs, dd)),
                    _ => None,
                },
                _ => None,
            },
            _ => None,
        }
    }

    pub fn scale(&self, t: &Ratio) -> (r: Option<Vec3R>)
        requires
            self.wf(),
            t.wf(),
        ensures
            match r {
                Some(v) => vs_scale_ok(self@, t@) && v.wf() && v@ == vs_scale(self@, t@),
                None => !vs_scale_ok(self@, t@),
            },
    {
        proof {
            lemma_pos_prod2(self@.d, t@.d);
        }
        match (mul_rng(self.x, t.n), mul_rng(self.y, t.n), mul_rng(self.z, t.n), mul_rng(
            self.d,
            t.d,
        )) {
            (Some(xs), Some(ys), Some(zs), Some(dd)) => Some(reduce4(xs, ys, zs, dd)),
            _ => None,
        }
    }

    pub fn dot(&self, other: &Vec3R) -> (r: Option<Ratio>)
        requires
            self.wf(),
            other.wf(),
        ensures
            match r {
                Some(v) => vs_dot_ok(self@, other@) && v.wf() && v@ == vs_dot(self@, other@),
                None => !vs_dot_ok(self@, other@),
            },
    {
        proof {
            lemma_pos_prod2(self@.d, other@.d);
        }
        let a = self;
        let b = other;
        match (mul_rng(a.x, b.x), mul_rng(a.y, b.y), mul_rng(a.z, b.z), mul_rng(a.d, b.d)) {
            (Some(px), Some(py), Some(pz), Some(dd)) => match add_rng(px, py) {
                Some(s1) => match add_rng(s1, pz) {
                    Some(s2) => Some(reduce_ratio(s2, dd)),
                    None => None,
                },
                None => None,
            },
            _ => None,
        }
    }

    pub fn cross(&self, other: &Vec3R) -> (r: Option<Vec3R>)
        requires
            self.wf(),
            other.wf(),
        ensures
            match r {
                Some(v) => vs_cross_ok(self@, other@) && v.wf() && v@ == vs_cross(self@, other@),
                None => !vs_cross_ok(self@, other@),
            },
    {
        proof {
            lemma_pos_prod2(self@.d, other@.d);
        }
        let a = self;
        let b = other;
        match (mul_rng(a.y, b.z), mul_rng(a.z, b.y), mul_rng(a.z, b.x), mul_rng(a.x, b.z)) {
            (Some(p1), Some(p2), Some(p3), Some(p4)) => match (
                mul_rng(a.x, b.y),
                mul_rng(a.y, b.x),
                mul_rng(a.d, b.d),
            ) {
                (Some(p5), Some(p6), Some(dd)) => match (
                    sub_rng(p1, p2),
                    sub_rng(p3, p4),
                    sub_rng(p5, p6),
                ) {
                    (Some(cx), Some(cy), Some(cz)) => Some(reduce4(cx, cy, cz, dd)),
                    _ => None,
                },
                _ => None,
            },
            _ => None,
        }
    }

    pub fn neg(&self) -> (r: Vec3R)
        requires
            self.wf(),
        ensures
            r.wf(),
            r@ == vs_neg(self@),
    {
        Vec3R { x: -self.x, y: -self.y, z: -self.z, d: self.d }
    }

    /// Whether the vector's value is the zero vector.
    pub fn is_zero(&self) -> (r: bool)
        requires
            self.wf(),
        ensures
            r == vs_is_zero(self@),
    {
        self.x == 0 && self.y == 0 && self.z == 0
    }
}

/// The vector assembled from three scalars over a shared denominator.
pub open spec fn vs_from_ratios(x: RatS, y: RatS, z: RatS) -> Vec3S {
    norm4(x.n * (y.d * z.d), y.n * (x.d * z.d), z.n * (x.d * y.d), (x.d * y.d) * z.d)
}

pub open spec fn vs_ratios_ok(x: RatS, y: RatS, z: RatS) -> bool {
    in_range(x.d * y.d) && in_range(y.d * z.d) && in_range(x.d * z.d) && in_range(
        x.n * (y.d * z.d),
    ) && in_range(y.n * (x.d * z.d)) && in_range(z.n * (x.d * y.d)) && in_range((x.d * y.d) * z.d)
}

proof fn lemma_pos_prod2(a: int, b: int)
    by (nonlinear_arith)
    requires
        a > 0,
        b > 0,
    ensures
        a * b > 0,
{
}

proof fn lemma_pos_prod3(a: int, b: int, c: int)
    by (nonlinear_arith)
    requires
        a > 0,
        b > 0,
        c > 0,
    ensures
        a * b > 0,
        b * c > 0,
        a * c > 0,
        (a * b) * c > 0,
{
}

/// Reduction preserves the value of every component, and the denominator
/// stays positive.
pub proof fn lemma_norm4_eq(x: int, y: int, z: int, d: int)
    requires
        d > 0,
    ensures
        vs_eq(norm4(x, y, z, d), Vec3S { x, y, z, d }),
        norm4(x, y, z, d).d > 0,
{
    let g = gcd(gcd(gcd(mag(x), mag(y)), mag(z)), mag(d)) as int;
    lemma_gcd_pos(gcd(gcd(mag(x), mag(y)), mag(z)), mag(d));
    lemma_gcd_divides(gcd(gcd(mag(x), mag(y)), mag(z)), mag(d));
    lemma_gcd_divides(gcd(mag(x), mag(y)), mag(z));
    lemma_gcd_divides(mag(x), mag(y));
    lemma_divides_trans(g, gcd(gcd(mag(x), mag(y)), mag(z)) as int, gcd(mag(x), mag(y)) as int);
    lemma_divides_trans(g, gcd(gcd(mag(x), mag(y)), mag(z)) as int, mag(z) as int);
    lemma_divides_trans(g, gcd(mag(x), mag(y)) as int, mag(x) as int);
    lemma_divides_trans(g, gcd(mag(x), mag(y)) as int, mag(y) as int);
    lemma_divides_mag(g, x);
    lemma_divides_mag(g, y);
    lemma_divides_mag(g, z);
    lemma_divides_mag(g, d);
    lemma_div_exact(x, g);
    lemma_div_exact(y, g);
    lemma_div_exact(z, g);
    lemma_div_exact(d, g);
    let b = d / g;
    assert((x / g) * d == x * b && (y / g) * d == y * b && (z / g) * d == z * b) by (
    nonlinear_arith)
        requires
            (x / g) * g == x,
            (y / g) * g == y,
            (z / g) * g == z,
            b * g == d,
    ;
    assert(b > 0) by (nonlinear_arith)
        requires
            b * g == d,
            d > 0,
            g > 0,
    ;
}

/// Value equality of vectors is transitive over positive denominators.
pub proof fn lemma_vs_eq_trans(a: Vec3S, b: Vec3S, c: Vec3S)
    requires
        a.d > 0,
        b.d > 0,
        c.d > 0,
        vs_eq(a, b),
        vs_eq(b, c),
    ensures
        vs_eq(a, c),
{
    assert(a.x * c.d == c.x * a.d && a.y * c.d == c.y * a.d && a.z * c.d == c.z * a.d) by (
    nonlinear_arith)
        requires
            a.d > 0,
            b.d > 0,
            c.d > 0,
            a.x * b.d == b.x * a.d,
            a.y * b.d == b.y * a.d,
            a.z * b.d == b.z * a.d,
            b.x * c.d == c.x * b.d,
            b.y * c.d == c.y * b.d,
            b.z * c.d == c.z * b.d,
    ;
}

/// Adding a zero-valued vector does not change the value.
pub proof fn lemma_add_zero(a: Vec3S, z: Vec3S)
    requires
        a.d > 0,
        z.d > 0,
        vs_is_zero(z),
    ensures
        vs_eq(vs_add(a, z), a),
        vs_add(a, z).d > 0,
{
    assert(a.d * z.d > 0) by (nonlinear_arith)
        requires
            a.d > 0,
            z.d > 0,
    ;
    lemma_norm4_eq(a.x * z.d + z.x * a.d, a.y * z.d + z.y * a.d, a.z * z.d + z.z * a.d, a.d * z.d);
    let raw = Vec3S {
        x: a.x * z.d + z.x * a.d,
        y: a.y * z.d + z.y * a.d,
        z: a.z * z.d + z.z * a.d,
        d: a.d * z.d,
    };
    assert(raw.x * a.d == a.x * raw.d && raw.y * a.d == a.y * raw.d && raw.z * a.d == a.z * raw.d
        && raw.d > 0) by (nonlinear_arith)
        requires
            a.d > 0,
            z.d > 0,
            z.x == 0,
            z.y == 0,
            z.z == 0,
            raw == (Vec3S {
                x: a.x * z.d + z.x * a.d,
                y: a.y * z.d + z.y * a.d,
                z: a.z * z.d + z.z * a.d,
                d: a.d * z.d,
            }),
    ;
    lemma_vs_eq_trans(vs_add(a, z), raw, a);
}

/// Scaling by a zero-valued factor yields a zero-valued vector.
pub proof fn lemma_scale_zero(a: Vec3S, t: RatS)
    requires
        a.d > 0,
        t.d > 0,
        t.n == 0,
    ensures
        vs_is_zero(vs_scale(a, t)),
        vs_scale(a, t).d > 0,
{
    assert(a.d * t.d > 0) by (nonlinear_arith)
        requires
            a.d > 0,
            t.d > 0,
    ;
    lemma_norm4_eq(a.x * t.n, a.y * t.n, a.z * t.n, a.d * t.d);
    let sc = vs_scale(a, t);
    assert(a.x * t.n == 0 && a.y * t.n == 0 && a.z * t.n == 0) by (nonlinear_arith)
        requires
            t.n == 0,
    ;
    assert(sc.x * (a.d * t.d) == (a.x * t.n) * sc.d);
    assert(sc.x * (a.d * t.d) == 0 && sc.y * (a.d * t.d) == 0 && sc.z * (a.d * t.d) == 0) by (
    nonlinear_arith)
        requires
            sc.x * (a.d * t.d) == (a.x * t.n) * sc.d,
            sc.y * (a.d * t.d) == (a.y * t.n) * sc.d,
            sc.z * (a.d * t.d) == (a.z * t.n) * sc.d,
            a.x * t.n == 0,
            a.y * t.n == 0,
            a.z * t.n == 0,
    ;
    assert(sc.x == 0 && sc.y == 0 && sc.z == 0) by (nonlinear_arith)
        requires
            a.d * t.d > 0,
            sc.x * (a.d * t.d) == 0,
            sc.y * (a.d * t.d) == 0,
            sc.z * (a.d * t.d) == 0,
    ;
}

/// Reduces `n / d` into a scalar, mirroring `norm2`.
fn reduce_ratio(n: i128, d: i128) -> (r: Ratio)
    requires
        d > 0,
        in_range(n as int),
    ensures
        r.wf(),
        r@ == norm2(n as int, d as int),
{
    let na = mag_u128(n);
    let da = mag_u128(d);
    proof {
        lemma_gcd_pos(na as nat, da as nat);
        lemma_gcd_divides(na as nat, da as nat);
    }
    let g = gcd_u128(na, da);
    Ratio { n: div_exact_signed(n, g), d: div_exact_signed(d, g) }
}

/// Reduces `(x, y, z) / d` by the common divisor of all four components,
/// mirroring the spec-level `norm4`.
fn reduce4(x: i128, y: i128, z: i128, d: i128) -> (r: Vec3R)
    requires
        d > 0,
        in_range(x as int),
        in_range(y as int),
        in_range(z as int),
    ensures
        r.wf(),
        r@ == norm4(x as int, y as int, z as int, d as int),
{
    let xa = mag_u128(x);
    let ya = mag_u128(y);
    let za = mag_u128(z);
    let da = mag_u128(d);
    let g1 = gcd_u128(xa, ya);
    let g2 = gcd_u128(g1, za);
    let g = gcd_u128(g2, da);
    proof {
        lemma_gcd_pos(g2 as nat, da as nat);
        lemma_gcd_divides(g2 as nat, da as nat);
        lemma_gcd_divides(g1 as nat, za as nat);
        lemma_gcd_divides(xa as nat, ya as nat);
        lemma_divides_trans(g as int, g2 as int, g1 as int);
        lemma_divides_trans(g as int, g2 as int, za as int);
        lemma_divides_trans(g as int, g1 as int, xa as int);
        lemma_divides_trans(g as int, g1 as int, ya as int);
    }
    Vec3R {
        x: div_exact_signed(x, g),
        y: div_exact_signed(y, g),
        z: div_exact_signed(z, g),
        d: div_exact_signed(d, g),
    }
}

} // verus!
