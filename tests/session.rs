use fxrates::model::RateError;
use fxrates::ratio::{Amount, Rate};
use fxrates::response::{LoadError, RatesResponse};
use fxrates::session::{QueryError, Session};

fn answer(rates: Vec<(&str, u32, u32)>) -> RatesResponse {
    RatesResponse {
        success: true,
        timestamp: 1704153600,
        base: "USD".to_string(),
        date: "2024-01-02".to_string(),
        rates: rates
            .into_iter()
            .map(|(c, n, d)| (c.to_string(), Rate { num: n, den: d }))
            .collect(),
    }
}

#[test]
fn queries_before_load_are_refused() {
    let s = Session::new();
    assert!(!s.is_loaded());
    assert_eq!(s.list("USD").unwrap_err(), QueryError::NotLoaded);
    assert_eq!(
        s.convert("USD", "EUR", Amount { num: 1, den: 1 }).unwrap_err(),
        QueryError::NotLoaded
    );
    assert_eq!(s.currencies().unwrap_err(), QueryError::NotLoaded);
    assert!(s.snapshot().is_err());
}

#[test]
fn load_then_query() {
    let mut s = Session::new();
    s.finish_load(Ok(answer(vec![("USD", 1, 1), ("EUR", 9, 10)]))).unwrap();
    assert!(s.is_loaded());
    assert_eq!(s.snapshot().unwrap().date(), "2024-01-02");
    assert_eq!(s.currencies().unwrap(), vec!["USD".to_string(), "EUR".to_string()]);
    let v = s.convert("EUR", "USD", Amount { num: 9, den: 1 }).unwrap();
    assert!(v.den > 0);
    assert_eq!(v.num, 10 * v.den as i128);
    assert_eq!(s.list("EUR").unwrap().base(), "EUR");
    assert_eq!(
        s.list("JPY").unwrap_err(),
        QueryError::Rate(RateError::UnknownCurrency("JPY".to_string()))
    );
}

#[test]
fn failed_load_keeps_snapshot() {
    let mut s = Session::new();
    s.finish_load(Ok(answer(vec![("USD", 1, 1)]))).unwrap();
    let e = s.finish_load(Err(LoadError::Provider {
        code: 101,
        kind: "missing_access_key".to_string(),
        info: None,
    }));
    assert!(matches!(e, Err(LoadError::Provider { code: 101, .. })));
    assert_eq!(s.currencies().unwrap(), vec!["USD".to_string()]);
    let e = s.finish_load(Err(LoadError::Fetch("timed out".to_string())));
    assert_eq!(e, Err(LoadError::Fetch("timed out".to_string())));
    assert!(s.is_loaded());
}

#[test]
fn later_load_replaces_snapshot() {
    let mut s = Session::new();
    s.finish_load(Ok(answer(vec![("USD", 1, 1)]))).unwrap();
    s.finish_load(Ok(answer(vec![("USD", 1, 1), ("GBP", 4, 5)]))).unwrap();
    assert_eq!(s.currencies().unwrap().len(), 2);
}

#[test]
fn zero_quote_is_refused() {
    let mut s = Session::new();
    let e = s.finish_load(Ok(answer(vec![("USD", 1, 1), ("XAU", 0, 1), ("XAG", 0, 1)])));
    assert_eq!(e, Err(LoadError::BadRate("XAU".to_string())));
    assert!(!s.is_loaded());
}

#[test]
fn repeated_code_is_refused() {
    let mut s = Session::new();
    let e = s.finish_load(Ok(answer(vec![("USD", 1, 1), ("EUR", 9, 10), ("EUR", 5, 1)])));
    assert_eq!(e, Err(LoadError::DuplicateCode("EUR".to_string())));
    assert!(!s.is_loaded());
}

#[test]
fn answer_getters() {
    let a = answer(vec![("USD", 1, 1)]);
    assert_eq!(a.base(), "USD");
    assert_eq!(a.date(), "2024-01-02");
    assert_eq!(a.rates().len(), 1);
    let r = a.into_rates().unwrap();
    assert_eq!(r.base(), "USD");
}
