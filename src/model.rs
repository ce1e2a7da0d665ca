use vstd::prelude::*;

use crate::ratio::{
    lemma_positive_quot, lemma_quot_common, lemma_same_symm, one, positive, prod, quot, same, Amount, Frac, Rate, Ratio, Value,
};

verus! {

/// Why an operation on a snapshot was refused.
#[derive(Debug, PartialEq, Eq)]
pub enum RateError {
    /// The code is not among the snapshot's currencies.
    UnknownCurrency(String),
}

/// No currency is quoted twice.
pub open spec fn distinct_codes(quotes: Seq<(String, Rate)>) -> bool {
    forall|j: int, k: int|
        #![trigger quotes[j], quotes[k]]
        0 <= j < quotes.len() && 0 <= k < quotes.len() && j != k ==> quotes[j].0@ != quotes[k].0@
}

/// `i` is the first position of `c` among the quotes.
pub open spec fn first_at(quotes: Seq<(String, Rate)>, c: Seq<char>, i: int) -> bool {
    &&& 0 <= i < quotes.len()
    &&& quotes[i].0@ == c
    &&& forall|j: int| 0 <= j < i ==> quotes[j].0@ != c
}

/// `c` occurs among the quotes.
pub open spec fn listed(quotes: Seq<(String, Rate)>, c: Seq<char>) -> bool {
    exists|i: int| 0 <= i < quotes.len() && quotes[i].0@ == c
}

/// The quote of `c`: the one at its first position.
pub open spec fn quote_of(quotes: Seq<(String, Rate)>, c: Seq<char>) -> Rate {
    quotes[choose|i: int| first_at(quotes, c, i)].1
}

/// A snapshot of exchange rates for one date, against one base currency.
///
/// The quotes are kept as they were fetched, together with `unit`, the quote
/// of the current base in the same terms; the rate of a currency against the
/// base is its quote divided by `unit`. A rebased snapshot therefore holds
/// exact rates however often it is rebased.
///
/// The base currency is one of the snapshot's currencies only when it is
/// listed among the quotes; no implicit quote of one is added for it.
#[derive(Debug)]
pub struct Rates {
    quotes: Vec<(String, Rate)>,
    unit: Rate,
    base: String,
    date: String,
}

impl Rates {
    pub closed spec fn quotes(self) -> Seq<(String, Rate)> {
        self.quotes@
    }

    pub closed spec fn unit(self) -> Rate {
        self.unit
    }

    pub closed spec fn base_code(self) -> Seq<char> {
        self.base@
    }

    pub closed spec fn date_text(self) -> Seq<char> {
        self.date@
    }

    /// Every quote, and the unit, is positive, and no currency is quoted twice.
    pub open spec fn wf(self) -> bool {
        &&& self.unit().wf()
        &&& distinct_codes(self.quotes())
        &&& forall|i: int| 0 <= i < self.quotes().len() ==> (#[trigger] self.quotes()[i]).1.wf()
    }

    /// `c` is one of the snapshot's currencies.
    pub open spec fn has(self, c: Seq<char>) -> bool {
        listed(self.quotes(), c)
    }

    /// The rate of `c` against the base.
    pub open spec fn rate(self, c: Seq<char>) -> Frac {
        quot(quote_of(self.quotes(), c).value(), self.unit().value())
    }

    /// `self` is `s` re-expressed against `c`: same date and currencies, and
    /// every rate divided by the rate of `c`.
    pub open spec fn is_rebase_of(self, s: Rates, c: Seq<char>) -> bool {
        &&& self.wf()
        &&& self.base_code() == c
        &&& self.date_text() == s.date_text()
        &&& forall|k: Seq<char>| #[trigger] self.has(k) == s.has(k)
        &&& forall|k: Seq<char>|
            s.has(k) ==> same(#[trigger] self.rate(k), quot(s.rate(k), s.rate(c)))
    }

    /// The amount `x` of `from` expressed in `to`: `(x / rate(from)) * rate(to)`.
    pub open spec fn converted(self, from: Seq<char>, to: Seq<char>, x: Frac) -> Frac {
        prod(quot(x, self.rate(from)), self.rate(to))
    }

    /// A snapshot built verbatim from fetched quotes, all relative to `base`.
    pub fn new(base: String, date: String, quotes: Vec<(String, Rate)>) -> (r: Rates)
        requires
            forall|i: int| 0 <= i < quotes@.len() ==> (#[trigger] quotes@[i]).1.wf(),
            distinct_codes(quotes@),
        ensures
            r.wf(),
            r.base_code() == base@,
            r.date_text() == date@,
            r.quotes() == quotes@,
            r.unit().value() == one(),
    {
        Rates { quotes, unit: Rate { num: 1, den: 1 }, base, date }
    }

    /// The first position of `code` among the quotes, if any.
    fn find(&self, code: &str) -> (r: Option<usize>)
        ensures
            r is None <==> !self.has(code@),
            r matches Some(i) ==> first_at(self.quotes(), code@, i as int),
    {
        let key: String = code.to_owned();
        let n = self.quotes.len();
        let mut i: usize = 0;
        while i < n
            invariant
                n == self.quotes@.len(),
                key@ == code@,
                i <= n,
                forall|j: int| 0 <= j < i ==> self.quotes@[j].0@ != code@,
            decreases n - i,
        {
            if self.quotes[i].0 == key {
                return Some(i);
            }
            i = i + 1;
        }
        None
    }

    /// The quote of `code`, if the snapshot has it.
    fn quote(&self, code: &str) -> (r: Option<Rate>)
        requires
            self.wf(),
        ensures
            r is None <==> !self.has(code@),
            r matches Some(q) ==> q == quote_of(self.quotes(), code@) && q.wf(),
    {
        match self.find(code) {
            Some(i) => {
                proof {
                    lemma_first_unique(self.quotes(), code@, i as int);
                }
                Some(self.quotes[i].1)
            },
            None => None,
        }
    }

    /// The base currency.
    pub fn base(&self) -> (r: &String)
        ensures
            r@ == self.base_code(),
    {
        &self.base
    }

    /// The date the rates are valid for.
    pub fn date(&self) -> (r: &String)
        ensures
            r@ == self.date_text(),
    {
        &self.date
    }

    /// Every currency with its rate against the base, in the order fetched.
    pub fn rates(&self) -> (r: Vec<(String, Ratio)>)
        requires
            self.wf(),
        ensures
            r@.len() == self.quotes().len(),
            forall|i: int|
                0 <= i < r@.len() ==> {
                    &&& (#[trigger] r@[i]).0@ == self.quotes()[i].0@
                    &&& r@[i].1.value() == self.rate(r@[i].0@)
                },
    {
        let mut out: Vec<(String, Ratio)> = Vec::new();
        let n = self.quotes.len();
        let mut i: usize = 0;
        while i < n
            invariant
                self.wf(),
                n == self.quotes@.len(),
                i <= n,
                out@.len() == i,
                forall|j: int|
                    0 <= j < i ==> {
                        &&& (#[trigger] out@[j]).0@ == self.quotes@[j].0@
                        &&& out@[j].1.value() == self.rate(out@[j].0@)
                    },
            decreases n - i,
        {
            let code: String = self.quotes[i].0.clone();
            proof {
                assert(listed(self.quotes(), code@)) by {
                    assert(self.quotes@[i as int].0@ == code@);
                }
            }
            let q = match self.quote(code.as_str()) {
                Some(q) => q,
                None => {
                    proof {
                        assert(false);
                    }
                    self.quotes[i].1
                },
            };
            let ratio = Ratio {
                num: mul_u32(q.num, self.unit.den),
                den: mul_u32(q.den, self.unit.num),
            };
            out.push((code, ratio));
            i = i + 1;
        }
        out
    }

    /// This snapshot re-expressed against `base`: every rate divided by the
    /// rate of `base`.
    pub fn with_base(&self, base: &str) -> (r: Result<Rates, RateError>)
        requires
            self.wf(),
        ensures
            r is Ok <==> self.has(base@),
            r matches Ok(s) ==> s.is_rebase_of(*self, base@),
            !self.has(base@) ==> (r matches Err(RateError::UnknownCurrency(c)) && c@ == base@),
    {
        let q = match self.quote(base) {
            Some(q) => q,
            None => {
                return Err(RateError::UnknownCurrency(base.to_owned()));
            },
        };
        let quotes = copy_quotes(&self.quotes);
        let r = Rates { quotes, unit: q, base: base.to_owned(), date: self.date.clone() };
        proof {
            assert forall|k: Seq<char>| self.has(k) implies same(
                #[trigger] r.rate(k),
                quot(self.rate(k), self.rate(base@)),
            ) by {
                let qk = quote_of(self.quotes(), k).value();
                lemma_quot_common(qk, q.value(), self.unit.value());
                lemma_same_symm(
                    quot(quot(qk, self.unit.value()), quot(q.value(), self.unit.value())),
                    quot(qk, q.value()),
                );
            }
        }
        Ok(r)
    }

    /// `amount` of `from` expressed in `to`: `(amount / rate(from)) * rate(to)`.
    /// An unknown `from` is reported before an unknown `to`.
    pub fn convert(&self, from: &str, to: &str, amount: Amount) -> (r: Result<Value, RateError>)
        requires
            self.wf(),
            amount.wf(),
        ensures
            r is Ok <==> self.has(from@) && self.has(to@),
            !self.has(from@) ==> (r matches Err(RateError::UnknownCurrency(c)) && c@ == from@),
            self.has(from@) && !self.has(to@) ==> (r matches Err(RateError::UnknownCurrency(c))
                && c@ == to@),
            r matches Ok(v) ==> v.wf() && same(v.value(), self.converted(from@, to@, amount.value())),
    {
        let qf = match self.quote(from) {
            Some(q) => q,
            None => {
                return Err(RateError::UnknownCurrency(from.to_owned()));
            },
        };
        let qt = match self.quote(to) {
            Some(q) => q,
            None => {
                return Err(RateError::UnknownCurrency(to.to_owned()));
            },
        };
        proof {
            assert(qt.den as int * qf.num as int > 0) by (nonlinear_arith)
                requires
                    qt.den > 0,
                    qf.num > 0,
            ;
        }
        let top: u64 = mul_u32(qt.num, qf.den);
        let bottom: u64 = mul_u32(qt.den, qf.num);
        proof {
            lemma_scale_bounds(amount.num as int, top as int, amount.den as int, bottom as int);
        }
        proof {
            assert(amount.den as int * bottom as int > 0) by (nonlinear_arith)
                requires
                    amount.den > 0,
                    bottom > 0,
            ;
        }
        let num: i128 = amount.num as i128 * top as i128;
        let den: u128 = amount.den as u128 * bottom as u128;
        let v = Value { num, den };
        proof {
            lemma_convert_path(amount.value(), qf.value(), qt.value(), self.unit.value());
        }
        Ok(v)
    }
}

/// Every rate of a well-formed snapshot is positive.
pub proof fn lemma_rate_positive(s: Rates, k: Seq<char>)
    requires
        s.wf(),
        s.has(k),
    ensures
        positive(s.rate(k)),
{
    lemma_first_exists(s.quotes(), k);
    let i = choose|i: int| first_at(s.quotes(), k, i);
    lemma_first_unique(s.quotes(), k, i);
    assert(s.quotes()[i].1.wf());
    lemma_positive_quot(quote_of(s.quotes(), k).value(), s.unit().value());
}

/// The first position of a code is the one `quote_of` reads.
proof fn lemma_first_unique(quotes: Seq<(String, Rate)>, c: Seq<char>, i: int)
    requires
        first_at(quotes, c, i),
    ensures
        quote_of(quotes, c) == quotes[i].1,
{
    let j = choose|j: int| first_at(quotes, c, j);
    assert(first_at(quotes, c, j));
    if j < i {
        assert(quotes[j].0@ != c);
    } else if i < j {
        assert(quotes[i].0@ != c);
    }
}

/// A listed code has a first position.
proof fn lemma_first_exists(quotes: Seq<(String, Rate)>, c: Seq<char>)
    requires
        listed(quotes, c),
    ensures
        exists|i: int| first_at(quotes, c, i),
    decreases quotes.len(),
{
    if quotes[0].0@ == c {
        assert(first_at(quotes, c, 0));
    } else {
        let rest = quotes.drop_first();
        let i = choose|i: int| 0 <= i < quotes.len() && quotes[i].0@ == c;
        assert(rest[i - 1].0@ == c);
        lemma_first_exists(rest, c);
        let j = choose|j: int| first_at(rest, c, j);
        assert(first_at(quotes, c, j + 1)) by {
            assert forall|m: int| 0 <= m < j + 1 implies quotes[m].0@ != c by {
                if m > 0 {
                    assert(quotes[m] == rest[m - 1]);
                }
            }
        }
    }
}

/// The exact product of two 32-bit values.
fn mul_u32(a: u32, b: u32) -> (r: u64)
    ensures
        r == a as int * b as int,
        r <= u32::MAX * u32::MAX,
{
    assert(a as int * b as int <= u32::MAX * u32::MAX) by (nonlinear_arith)
        requires
            a <= u32::MAX,
            b <= u32::MAX,
    ;
    a as u64 * b as u64
}

/// The products taken by a conversion fit their integer types.
proof fn lemma_scale_bounds(x: int, t: int, d: int, b: int)
    requires
        i64::MIN <= x <= i64::MAX,
        0 <= t <= u32::MAX * u32::MAX,
        0 <= d <= u64::MAX,
        0 <= b <= u64::MAX,
    ensures
        i128::MIN <= x * t <= i128::MAX,
        0 <= d * b <= u128::MAX,
{
    assert(i128::MIN <= x * t <= i128::MAX) by (nonlinear_arith)
        requires
            i64::MIN <= x <= i64::MAX,
            0 <= t <= u32::MAX * u32::MAX,
    ;
    assert(0 <= d * b <= u128::MAX) by (nonlinear_arith)
        requires
            0 <= d <= u64::MAX,
            0 <= b <= u64::MAX,
    ;
}

/// Converting through the base gives `x * (t / f)`: the unit `u` cancels.
pub proof fn lemma_convert_path(x: Frac, f: Frac, t: Frac, u: Frac)
    ensures
        same(prod(x, quot(t, f)), prod(quot(x, quot(f, u)), quot(t, u))),
{
    let a = prod(x, quot(t, f));
    let k = u.0 * u.1;
    assert(x.0 * (f.1 * u.0) * (t.0 * u.1) == (x.0 * (t.0 * f.1)) * k) by (nonlinear_arith)
        requires
            k == u.0 * u.1,
    ;
    assert(x.1 * (f.0 * u.1) * (t.1 * u.0) == (x.1 * (t.1 * f.0)) * k) by (nonlinear_arith)
        requires
            k == u.0 * u.1,
    ;
    assert(a.0 * (a.1 * k) == (a.0 * k) * a.1) by (nonlinear_arith);
}

/// A copy of the quotes, entry for entry.
fn copy_quotes(quotes: &Vec<(String, Rate)>) -> (r: Vec<(String, Rate)>)
    ensures
        r@ == quotes@,
{
    let mut out: Vec<(String, Rate)> = Vec::new();
    let n = quotes.len();
    let mut i: usize = 0;
    while i < n
        invariant
            n == quotes@.len(),
            i <= n,
            out@ == quotes@.subrange(0, i as int),
        decreases n - i,
    {
        let code: String = quotes[i].0.clone();
        out.push((code, quotes[i].1));
        proof {
            assert(out@ =~= quotes@.subrange(0, i + 1));
        }
        i = i + 1;
    }
    proof {
        assert(out@ =~= quotes@);
    }
    out
}

} // verus!
