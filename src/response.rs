use vstd::prelude::*;

use crate::model::Rates;
use crate::ratio::Rate;

verus! {

/// The rates part of a successful answer of the rate service.
#[derive(Debug)]
pub struct RatesResponse {
    pub success: bool,
    pub timestamp: i32,
    pub base: String,
    pub date: String,
    pub rates: Vec<(String, Rate)>,
}

/// Why loading a snapshot failed.
#[derive(Debug, PartialEq, Eq)]
pub enum LoadError {
    /// The service could not be reached, or its answer could not be read.
    Fetch(String),
    /// The service answered with an explicit failure.
    Provider { code: i32, kind: String, info: Option<String> },
    /// The answer quoted this currency at a rate that is not positive.
    BadRate(String),
    /// The answer quoted this currency more than once.
    DuplicateCode(String),
}

/// The first `n` quotes are positive and name distinct currencies.
pub open spec fn sound_prefix(rates: Seq<(String, Rate)>, n: int) -> bool {
    &&& forall|j: int| 0 <= j < n ==> (#[trigger] rates[j]).1.wf()
    &&& forall|j: int, k: int|
        #![trigger rates[j], rates[k]]
        0 <= j < n && 0 <= k < n && j != k ==> rates[j].0@ != rates[k].0@
}

/// All quotes are positive and name distinct currencies.
pub open spec fn sound_quotes(rates: Seq<(String, Rate)>) -> bool {
    sound_prefix(rates, rates.len() as int)
}

impl RatesResponse {
    pub fn base(&self) -> (r: &String)
        ensures
            r == &self.base,
    {
        &self.base
    }

    pub fn rates(&self) -> (r: &Vec<(String, Rate)>)
        ensures
            r == &self.rates,
    {
        &self.rates
    }

    pub fn date(&self) -> (r: &String)
        ensures
            r == &self.date,
    {
        &self.date
    }

    /// The snapshot this answer describes, taken verbatim. The answer is
    /// refused at the first quote that is not positive or that repeats an
    /// earlier currency.
    pub fn into_rates(self) -> (r: Result<Rates, LoadError>)
        ensures
            r is Ok <==> sound_quotes(self.rates@),
            r matches Ok(s) ==> {
                &&& s.wf()
                &&& s.base_code() == self.base@
                &&& s.date_text() == self.date@
                &&& s.quotes() == self.rates@
                &&& s.unit().value() == crate::ratio::one()
            },
            r matches Err(e) ==> exists|i: int|
                0 <= i < self.rates@.len() && sound_prefix(self.rates@, i) && !sound_prefix(
                    self.rates@,
                    i + 1,
                ) && if !(#[trigger] self.rates@[i]).1.wf() {
                    e == LoadError::BadRate(self.rates@[i].0)
                } else {
                    e == LoadError::DuplicateCode(self.rates@[i].0)
                },
    {
        let n = self.rates.len();
        let mut i: usize = 0;
        while i < n
            invariant
                n == self.rates@.len(),
                i <= n,
                sound_prefix(self.rates@, i as int),
            decreases n - i,
        {
            let q = self.rates[i].1;
            if q.num == 0 || q.den == 0 {
                let e = LoadError::BadRate(self.rates[i].0.clone());
                assert(!sound_prefix(self.rates@, i + 1));
                return Err(e);
            }
            if let Some(k) = earlier_position(&self.rates, i) {
                let e = LoadError::DuplicateCode(self.rates[i].0.clone());
                assert(!sound_prefix(self.rates@, i + 1)) by {
                    assert(self.rates@[k as int].0@ == self.rates@[i as int].0@);
                }
                assert(self.rates@[i as int].1.wf());
                return Err(e);
            }
            assert(sound_prefix(self.rates@, i + 1)) by {
                assert forall|j: int, m: int|
                    0 <= j < i + 1 && 0 <= m < i + 1 && j != m implies self.rates@[j].0@
                    != self.rates@[m].0@ by {
                    if j == i {
                        assert(self.rates@[m].0@ != self.rates@[i as int].0@);
                    } else if m == i {
                        assert(self.rates@[j].0@ != self.rates@[i as int].0@);
                    }
                }
            }
            i = i + 1;
        }
        Ok(Rates::new(self.base, self.date, self.rates))
    }
}

/// A position before `i` that quotes the same currency as position `i`.
fn earlier_position(rates: &Vec<(String, Rate)>, i: usize) -> (r: Option<usize>)
    requires
        i < rates@.len(),
    ensures
        r matches Some(k) ==> k < i && rates@[k as int].0@ == rates@[i as int].0@,
        r is None ==> forall|m: int| 0 <= m < i ==> rates@[m].0@ != rates@[i as int].0@,
{
    let mut k: usize = 0;
    while k < i
        invariant
            i < rates@.len(),
            k <= i,
            forall|m: int| 0 <= m < k ==> rates@[m].0@ != rates@[i as int].0@,
        decreases i - k,
    {
        if rates[k].0 == rates[i].0 {
            return Some(k);
        }
        k = k + 1;
    }
    None
}

} // verus!
