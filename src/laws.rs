use vstd::prelude::*;

use crate::model::{lemma_convert_path, lemma_rate_positive, Rates};
use crate::ratio::{
    lemma_positive_quot, lemma_prod_congruent, lemma_prod_quot_swap, lemma_quot_common,
    lemma_quot_congruent, lemma_quot_one, lemma_quot_prod_cancel, lemma_quot_self, lemma_same_symm, lemma_prod_commutes, lemma_scale_back,
    lemma_scale_congruent,
    lemma_same_trans, one, positive, prod, quot, same, Frac,
};

verus! {

/// Rebasing is invertible: rebasing `s` onto `c` and then back onto the base
/// of `s` gives the same currencies, date and rates as `s`, provided the base
/// of `s` is listed with rate one.
pub proof fn lemma_rebase_round_trip(s: Rates, c: Seq<char>, mid: Rates, back: Rates)
    requires
        s.wf(),
        s.has(c),
        s.has(s.base_code()),
        same(s.rate(s.base_code()), one()),
        mid.is_rebase_of(s, c),
        back.is_rebase_of(mid, s.base_code()),
    ensures
        back.base_code() == s.base_code(),
        back.date_text() == s.date_text(),
        forall|k: Seq<char>| #[trigger] back.has(k) == s.has(k),
        forall|k: Seq<char>| s.has(k) ==> same(#[trigger] back.rate(k), s.rate(k)),
{
    let b = s.base_code();
    assert forall|k: Seq<char>| s.has(k) implies same(#[trigger] back.rate(k), s.rate(k)) by {
        assert(mid.has(k) && mid.has(b));
        let sk = s.rate(k);
        let sb = s.rate(b);
        let sc = s.rate(c);
        lemma_rate_positive(s, k);
        lemma_rate_positive(s, b);
        lemma_rate_positive(s, c);
        lemma_rate_positive(mid, k);
        lemma_rate_positive(mid, b);
        let q1 = quot(mid.rate(k), mid.rate(b));
        let q2 = quot(quot(sk, sc), quot(sb, sc));
        let q3 = quot(sk, sb);
        lemma_positive_quot(mid.rate(k), mid.rate(b));
        lemma_positive_quot(sk, sc);
        lemma_positive_quot(sb, sc);
        lemma_positive_quot(quot(sk, sc), quot(sb, sc));
        lemma_positive_quot(sk, sb);
        lemma_quot_congruent(mid.rate(k), quot(sk, sc), mid.rate(b), quot(sb, sc));
        lemma_quot_common(sk, sb, sc);
        lemma_quot_one(sk, sb);
        lemma_same_trans(back.rate(k), q1, q2);
        lemma_same_trans(back.rate(k), q2, q3);
        lemma_same_trans(back.rate(k), q3, sk);
    }
}

/// After rebasing onto `c`, the rate of `c` is one.
pub proof fn lemma_rebase_unit(s: Rates, c: Seq<char>, r: Rates)
    requires
        s.wf(),
        s.has(c),
        r.is_rebase_of(s, c),
    ensures
        same(r.rate(c), one()),
{
    let sc = s.rate(c);
    lemma_rate_positive(s, c);
    lemma_positive_quot(sc, sc);
    lemma_quot_self(sc);
    lemma_same_trans(r.rate(c), quot(sc, sc), one());
}

/// Converting a currency into itself returns the amount.
pub proof fn lemma_convert_identity(s: Rates, c: Seq<char>, x: Frac)
    requires
        s.wf(),
        s.has(c),
    ensures
        same(s.converted(c, c, x), x),
{
    lemma_quot_prod_cancel(x, s.rate(c));
}

/// Converting from `a` to `b` equals multiplying by the rate of `b` in the
/// snapshot rebased onto `a`.
pub proof fn lemma_convert_via_rebase(s: Rates, a: Seq<char>, b: Seq<char>, r: Rates, x: Frac)
    requires
        s.wf(),
        s.has(a),
        s.has(b),
        r.is_rebase_of(s, a),
        x.1 > 0,
    ensures
        same(s.converted(a, b, x), prod(r.rate(b), x)),
{
    let ra = s.rate(a);
    let rb = s.rate(b);
    lemma_rate_positive(s, a);
    lemma_rate_positive(s, b);
    lemma_positive_quot(rb, ra);
    lemma_prod_quot_swap(x, ra, rb);
    lemma_prod_congruent(r.rate(b), quot(rb, ra), x);
    assert(prod(quot(rb, ra), x).1 > 0) by (nonlinear_arith)
        requires
            positive(quot(rb, ra)),
            x.1 > 0,
    ;
    lemma_same_symm(prod(r.rate(b), x), prod(quot(rb, ra), x));
    lemma_same_trans(s.converted(a, b, x), prod(quot(rb, ra), x), prod(r.rate(b), x));
}

/// A conversion gives the same value whichever currency the snapshot is
/// expressed against.
pub proof fn lemma_convert_base_independent(
    s: Rates,
    k: Seq<char>,
    r: Rates,
    a: Seq<char>,
    b: Seq<char>,
    x: Frac,
)
    requires
        s.wf(),
        s.has(k),
        s.has(a),
        s.has(b),
        r.is_rebase_of(s, k),
        x.1 > 0,
    ensures
        same(r.converted(a, b, x), s.converted(a, b, x)),
{
    let sa = s.rate(a);
    let sb = s.rate(b);
    let sk = s.rate(k);
    lemma_rate_positive(s, a);
    lemma_rate_positive(s, b);
    lemma_rate_positive(s, k);
    lemma_positive_quot(sa, sk);
    lemma_positive_quot(sb, sk);
    lemma_positive_quot(sb, sa);
    let m1 = prod(quot(x, quot(sa, sk)), quot(sb, sk));
    let m2 = prod(x, quot(sb, sa));
    let m3 = prod(quot(sb, sa), x);
    lemma_scale_congruent(x, r.rate(a), quot(sa, sk), r.rate(b), quot(sb, sk));
    lemma_convert_path(x, sa, sb, sk);
    lemma_same_symm(m2, m1);
    lemma_prod_commutes(x, quot(sb, sa));
    lemma_prod_quot_swap(x, sa, sb);
    lemma_same_symm(s.converted(a, b, x), m3);
    assert(m1.1 > 0 && m2.1 > 0 && m3.1 > 0) by (nonlinear_arith)
        requires
            x.1 > 0,
            positive(quot(sa, sk)),
            positive(quot(sb, sk)),
            positive(quot(sb, sa)),
            m1 == prod(quot(x, quot(sa, sk)), quot(sb, sk)),
            m2 == prod(x, quot(sb, sa)),
            m3 == prod(quot(sb, sa), x),
    ;
    lemma_same_trans(r.converted(a, b, x), m1, m2);
    lemma_same_trans(r.converted(a, b, x), m2, m3);
    lemma_same_trans(r.converted(a, b, x), m3, s.converted(a, b, x));
}

/// Converting an amount from `a` to `b` and the result back to `a` gives
/// the amount.
pub proof fn lemma_convert_round_trip(s: Rates, a: Seq<char>, b: Seq<char>, x: Frac)
    requires
        s.wf(),
        s.has(a),
        s.has(b),
    ensures
        same(s.converted(b, a, s.converted(a, b, x)), x),
{
    lemma_scale_back(x, s.rate(a), s.rate(b));
}

} // verus!
