use vstd::prelude::*;

verus! {

/// An exact rational value written as a pair `(numerator, denominator)`.
pub type Frac = (int, int);

/// The fraction one.
pub open spec fn one() -> Frac {
    (1, 1)
}

/// `a` and `b` stand for the same rational number.
pub open spec fn same(a: Frac, b: Frac) -> bool {
    a.0 * b.1 == b.0 * a.1
}

/// Both parts are strictly positive.
pub open spec fn positive(a: Frac) -> bool {
    a.0 > 0 && a.1 > 0
}

/// The quotient `a / b`.
pub open spec fn quot(a: Frac, b: Frac) -> Frac {
    (a.0 * b.1, a.1 * b.0)
}

/// The product `a * b`.
pub open spec fn prod(a: Frac, b: Frac) -> Frac {
    (a.0 * b.0, a.1 * b.1)
}

/// A positive exchange quote `num / den`.
#[derive(Clone, Copy, Debug, PartialEq, Eq, Structural)]
pub struct Rate {
    pub num: u32,
    pub den: u32,
}

impl Rate {
    pub open spec fn wf(self) -> bool {
        self.num > 0 && self.den > 0
    }

    pub open spec fn value(self) -> Frac {
        (self.num as int, self.den as int)
    }

    /// The quote `num / den`, or `None` when either part is zero.
    pub fn new(num: u32, den: u32) -> (r: Option<Rate>)
        ensures
            r.is_some() <==> (num > 0 && den > 0),
            r matches Some(q) ==> q.num == num && q.den == den && q.wf(),
    {
        if num > 0 && den > 0 {
            Some(Rate { num, den })
        } else {
            None
        }
    }
}

/// The rate of one currency against a snapshot's base, `num / den`.
#[derive(Clone, Copy, Debug, PartialEq, Eq, Structural)]
pub struct Ratio {
    pub num: u64,
    pub den: u64,
}

impl Ratio {
    pub open spec fn value(self) -> Frac {
        (self.num as int, self.den as int)
    }
}

/// A signed amount of money `num / den`.
#[derive(Clone, Copy, Debug, PartialEq, Eq, Structural)]
pub struct Amount {
    pub num: i64,
    pub den: u64,
}

impl Amount {
    pub open spec fn wf(self) -> bool {
        self.den > 0
    }

    pub open spec fn value(self) -> Frac {
        (self.num as int, self.den as int)
    }
}

/// The result of a conversion, `num / den`.
#[derive(Clone, Copy, Debug, PartialEq, Eq, Structural)]
pub struct Value {
    pub num: i128,
    pub den: u128,
}

impl Value {
    /// The denominator is positive, so `value` is a rational number.
    pub open spec fn wf(self) -> bool {
        self.den > 0
    }

    pub open spec fn value(self) -> Frac {
        (self.num as int, self.den as int)
    }
}

pub proof fn lemma_same_symm(a: Frac, b: Frac)
    requires
        same(a, b),
    ensures
        same(b, a),
{
}

pub proof fn lemma_same_trans(a: Frac, b: Frac, c: Frac)
    requires
        same(a, b),
        same(b, c),
        b.1 > 0,
    ensures
        same(a, c),
{
    assert(a.0 * c.1 == c.0 * a.1) by (nonlinear_arith)
        requires
            a.0 * b.1 == b.0 * a.1,
            b.0 * c.1 == c.0 * b.1,
            b.1 > 0,
    ;
}

pub proof fn lemma_positive_quot(a: Frac, b: Frac)
    requires
        positive(a),
        positive(b),
    ensures
        positive(quot(a, b)),
{
    assert(a.0 * b.1 > 0 && a.1 * b.0 > 0) by (nonlinear_arith)
        requires
            positive(a),
            positive(b),
    ;
}

/// Equal operands give equal quotients.
pub proof fn lemma_quot_congruent(a: Frac, a2: Frac, b: Frac, b2: Frac)
    requires
        same(a, a2),
        same(b, b2),
    ensures
        same(quot(a, b), quot(a2, b2)),
{
    assert((a.0 * b.1) * (a2.1 * b2.0) == (a2.0 * b2.1) * (a.1 * b.0)) by (nonlinear_arith)
        requires
            a.0 * a2.1 == a2.0 * a.1,
            b.0 * b2.1 == b2.0 * b.1,
    ;
}

/// `(x / z) / (y / z)` is `x / y`.
pub proof fn lemma_quot_common(x: Frac, y: Frac, z: Frac)
    ensures
        same(quot(quot(x, z), quot(y, z)), quot(x, y)),
{
    lemma_mul_six(x.0, x.1, y.0, y.1, z.0, z.1);
}

/// Converting there and back: `(x / r) * r` is `x`.
pub proof fn lemma_quot_prod_cancel(x: Frac, r: Frac)
    ensures
        same(prod(quot(x, r), r), x),
{
    assert((x.0 * r.1 * r.0) * x.1 == x.0 * (x.1 * r.0 * r.1)) by (nonlinear_arith);
}

/// `(x / a) * b` is `(b / a) * x`.
pub proof fn lemma_prod_quot_swap(x: Frac, a: Frac, b: Frac)
    ensures
        same(prod(quot(x, a), b), prod(quot(b, a), x)),
{
    let p = x.0 * x.1;
    let q = a.0 * a.1;
    let r = b.0 * b.1;
    assert((x.0 * a.1 * b.0) * (b.1 * a.0 * x.1) == p * q * r) by (nonlinear_arith)
        requires
            p == x.0 * x.1,
            q == a.0 * a.1,
            r == b.0 * b.1,
    ;
    assert((b.0 * a.1 * x.0) * (x.1 * a.0 * b.1) == p * q * r) by (nonlinear_arith)
        requires
            p == x.0 * x.1,
            q == a.0 * a.1,
            r == b.0 * b.1,
    ;
}

/// Equal factors give equal products.
pub proof fn lemma_prod_congruent(y: Frac, y2: Frac, x: Frac)
    requires
        same(y, y2),
    ensures
        same(prod(y, x), prod(y2, x)),
{
    assert((y.0 * x.0) * (y2.1 * x.1) == (y2.0 * x.0) * (y.1 * x.1)) by (nonlinear_arith)
        requires
            y.0 * y2.1 == y2.0 * y.1,
    ;
}

/// `(x / a) * b` depends only on the values of `a` and `b`.
pub proof fn lemma_scale_congruent(x: Frac, a: Frac, a2: Frac, b: Frac, b2: Frac)
    requires
        same(a, a2),
        same(b, b2),
    ensures
        same(prod(quot(x, a), b), prod(quot(x, a2), b2)),
{
    lemma_mul_pairs(x.0, a.1, b.0, x.1, a2.0, b2.1);
    lemma_mul_pairs(x.0, a2.1, b2.0, x.1, a.0, b.1);
    assert(a.1 * a2.0 == a2.1 * a.0) by (nonlinear_arith)
        requires
            a.0 * a2.1 == a2.0 * a.1,
    ;
}

/// `x * y` is `y * x`.
pub proof fn lemma_prod_commutes(x: Frac, y: Frac)
    ensures
        same(prod(x, y), prod(y, x)),
{
    assert((x.0 * y.0) * (y.1 * x.1) == (y.0 * x.0) * (x.1 * y.1)) by (nonlinear_arith);
}

/// `(((x / a) * b) / b) * a` is `x`.
pub proof fn lemma_scale_back(x: Frac, a: Frac, b: Frac)
    ensures
        same(prod(quot(prod(quot(x, a), b), b), a), x),
{
    let k = ((a.1 * b.0) * b.1) * a.0;
    let k2 = ((a.0 * b.1) * b.0) * a.1;
    assert((((x.0 * a.1) * b.0) * b.1) * a.0 == x.0 * k) by (nonlinear_arith)
        requires
            k == ((a.1 * b.0) * b.1) * a.0,
    ;
    assert((((x.1 * a.0) * b.1) * b.0) * a.1 == x.1 * k2) by (nonlinear_arith)
        requires
            k2 == ((a.0 * b.1) * b.0) * a.1,
    ;
    assert(k == k2) by (nonlinear_arith)
        requires
            k == ((a.1 * b.0) * b.1) * a.0,
            k2 == ((a.0 * b.1) * b.0) * a.1,
    ;
    assert((x.0 * k) * x.1 == x.0 * (x.1 * k)) by (nonlinear_arith);
}

/// `(u * v * w) * (u2 * v2 * w2)` regrouped by pairs.
proof fn lemma_mul_pairs(u: int, v: int, w: int, u2: int, v2: int, w2: int)
    ensures
        (u * v * w) * (u2 * v2 * w2) == (u * u2) * ((v * v2) * (w * w2)),
{
    let l = u * v;
    let l2 = u2 * v2;
    lemma_mul_swap(l, w, l2, w2);
    lemma_mul_swap(u, v, u2, v2);
    let p = u * u2;
    let q = v * v2;
    let r = w * w2;
    assert((p * q) * r == p * (q * r)) by (nonlinear_arith);
}

proof fn lemma_mul_swap(w: int, x: int, y: int, z: int)
    ensures
        (w * x) * (y * z) == (w * y) * (x * z),
{
    assert((w * x) * (y * z) == (w * y) * (x * z)) by (nonlinear_arith);
}

proof fn lemma_mul_six(a: int, b: int, c: int, d: int, e: int, f: int)
    ensures
        (a * f * (d * e)) * (b * c) == (a * d) * (b * e * (c * f)),
{
    let p = a * d;
    let q = b * c;
    let r = f * e;
    lemma_mul_swap(a, f, d, e);
    assert(a * f * (d * e) == p * r);
    assert((p * r) * q == (p * q) * r) by (nonlinear_arith);
    assert(b * e * (c * f) == q * r) by {
        lemma_mul_swap(b, e, c, f);
        assert(e * f == r) by (nonlinear_arith)
            requires
                r == f * e,
        ;
    }
    assert(p * (q * r) == (p * q) * r) by (nonlinear_arith);
}

/// Dividing by a value equal to one changes nothing.
pub proof fn lemma_quot_one(x: Frac, u: Frac)
    requires
        same(u, one()),
    ensures
        same(quot(x, u), x),
{
    assert(one().0 == 1 && one().1 == 1);
    assert(u.0 * 1 == 1 * u.1);
    assert(u.0 == u.1);
    assert((x.0 * u.1) * x.1 == x.0 * (x.1 * u.0)) by (nonlinear_arith)
        requires
            u.0 == u.1,
    ;
}

/// `x / x` is one.
pub proof fn lemma_quot_self(x: Frac)
    ensures
        same(quot(x, x), one()),
{
    assert((x.0 * x.1) * 1 == 1 * (x.1 * x.0)) by (nonlinear_arith);
}

} // verus!
