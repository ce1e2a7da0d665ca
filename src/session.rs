use vstd::prelude::*;

use crate::model::{RateError, Rates};
use crate::ratio::{Amount, Value};
use crate::response::{LoadError, RatesResponse};

verus! {

/// Why a query on the session was refused.
#[derive(Debug, PartialEq, Eq)]
pub enum QueryError {
    /// No snapshot has been loaded yet.
    NotLoaded,
    /// The snapshot refused the query.
    Rate(RateError),
}

/// The state of an interactive session: at most one loaded snapshot.
#[derive(Debug)]
pub struct Session {
    current: Option<Rates>,
}

impl Session {
    pub closed spec fn current(self) -> Option<Rates> {
        self.current
    }

    pub open spec fn wf(self) -> bool {
        self.current() matches Some(r) ==> r.wf()
    }

    /// A session with nothing loaded.
    pub fn new() -> (r: Session)
        ensures
            r.wf(),
            r.current() is None,
    {
        Session { current: None }
    }

    /// Whether a snapshot is loaded.
    pub fn is_loaded(&self) -> (r: bool)
        ensures
            r == self.current() is Some,
    {
        self.current.is_some()
    }

    /// Replaces the loaded snapshot, whatever it was, by `rates`.
    pub fn load(&mut self, rates: Rates)
        requires
            rates.wf(),
        ensures
            final(self).wf(),
            final(self).current() == Some(rates),
    {
        self.current = Some(rates);
    }

    /// Settles a load: the fetched answer replaces the loaded snapshot; on
    /// any failure the session keeps what it had and the failure is returned.
    pub fn finish_load(&mut self, fetched: Result<RatesResponse, LoadError>) -> (r: Result<
        (),
        LoadError,
    >)
        requires
            old(self).wf(),
        ensures
            final(self).wf(),
            r is Ok <==> (fetched matches Ok(a) && crate::response::sound_quotes(a.rates@)),
            r is Ok ==> (final(self).current() matches Some(s) && s.base_code()
                == fetched->Ok_0.base@ && s.date_text() == fetched->Ok_0.date@ && s.quotes()
                == fetched->Ok_0.rates@ && s.unit().value() == crate::ratio::one()),
            r is Err ==> final(self).current() == old(self).current(),
            fetched matches Err(e) ==> r == Err::<(), LoadError>(e),
    {
        match fetched {
            Err(e) => Err(e),
            Ok(answer) => match answer.into_rates() {
                Ok(rates) => {
                    self.current = Some(rates);
                    Ok(())
                },
                Err(e) => Err(e),
            },
        }
    }

    /// The loaded snapshot.
    pub fn snapshot(&self) -> (r: Result<&Rates, QueryError>)
        ensures
            r is Err <==> self.current() is None,
            r is Err ==> r == Err::<&Rates, QueryError>(QueryError::NotLoaded),
            r matches Ok(s) ==> self.current() == Some(*s),
    {
        match &self.current {
            Some(r) => Ok(r),
            None => Err(QueryError::NotLoaded),
        }
    }

    /// The codes of the loaded snapshot, in the order fetched.
    pub fn currencies(&self) -> (r: Result<Vec<String>, QueryError>)
        requires
            self.wf(),
        ensures
            r is Err <==> self.current() is None,
            r is Err ==> r == Err::<Vec<String>, QueryError>(QueryError::NotLoaded),
            r matches Ok(v) ==> v@.len() == self.current()->Some_0.quotes().len() && forall|i: int|
                0 <= i < v@.len() ==> (#[trigger] v@[i])@ == self.current()->Some_0.quotes()[i].0@,
    {
        match &self.current {
            None => Err(QueryError::NotLoaded),
            Some(s) => {
                let rates = s.rates();
                let mut out: Vec<String> = Vec::new();
                let mut i: usize = 0;
                while i < rates.len()
                    invariant
                        rates@.len() == s.quotes().len(),
                        forall|j: int| 0 <= j < rates@.len() ==> (#[trigger] rates@[j]).0@ == s.quotes()[j].0@,
                        i <= rates@.len(),
                        out@.len() == i,
                        forall|j: int| 0 <= j < i ==> (#[trigger] out@[j])@ == s.quotes()[j].0@,
                    decreases rates@.len() - i,
                {
                    out.push(rates[i].0.clone());
                    i = i + 1;
                }
                Ok(out)
            },
        }
    }

    /// The loaded snapshot re-expressed against `base`.
    pub fn list(&self, base: &str) -> (r: Result<Rates, QueryError>)
        requires
            self.wf(),
        ensures
            self.current() is None ==> r == Err::<Rates, QueryError>(QueryError::NotLoaded),
            self.current() matches Some(s) ==> {
                &&& r is Ok <==> s.has(base@)
                &&& r matches Ok(t) ==> t.is_rebase_of(s, base@)
                &&& !s.has(base@) ==> (r matches Err(QueryError::Rate(RateError::UnknownCurrency(c)))
                    && c@ == base@)
            },
    {
        match &self.current {
            None => Err(QueryError::NotLoaded),
            Some(s) => match s.with_base(base) {
                Ok(t) => Ok(t),
                Err(e) => Err(QueryError::Rate(e)),
            },
        }
    }

    /// `amount` of `from` expressed in `to`, with the loaded snapshot.
    pub fn convert(&self, from: &str, to: &str, amount: Amount) -> (r: Result<Value, QueryError>)
        requires
            self.wf(),
            amount.wf(),
        ensures
            self.current() is None ==> r == Err::<Value, QueryError>(QueryError::NotLoaded),
            self.current() matches Some(s) ==> {
                &&& r is Ok <==> s.has(from@) && s.has(to@)
                &&& r matches Ok(v) ==> v.wf() && crate::ratio::same(
                    v.value(),
                    s.converted(from@, to@, amount.value()),
                )
                &&& !s.has(from@) ==> (r matches Err(QueryError::Rate(RateError::UnknownCurrency(c)))
                    && c@ == from@)
                &&& s.has(from@) && !s.has(to@) ==> (r matches Err(
                    QueryError::Rate(RateError::UnknownCurrency(c)),
                ) && c@ == to@)
            },
    {
        match &self.current {
            None => Err(QueryError::NotLoaded),
            Some(s) => match s.convert(from, to, amount) {
                Ok(v) => Ok(v),
                Err(e) => Err(QueryError::Rate(e)),
            },
        }
    }
}

} // verus!
