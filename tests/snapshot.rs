use fxrates::model::{RateError, Rates};
use fxrates::ratio::{Amount, Rate, Ratio, Value};

fn q(num: u32, den: u32) -> Rate {
    Rate::new(num, den).unwrap()
}

fn sample() -> Rates {
    Rates::new(
        "USD".to_string(),
        "2024-01-02".to_string(),
        vec![
            ("USD".to_string(), q(1, 1)),
            ("EUR".to_string(), q(9, 10)),
            ("GBP".to_string(), q(8, 10)),
        ],
    )
}

fn amount(num: i64, den: u64) -> Amount {
    Amount { num, den }
}

fn value_is(v: Value, num: i128, den: u128) -> bool {
    v.den > 0 && v.num * den as i128 == num * v.den as i128
}

fn ratio_is(r: Ratio, num: u64, den: u64) -> bool {
    r.den > 0 && r.num as u128 * den as u128 == num as u128 * r.den as u128
}

fn rate_of(s: &Rates, code: &str) -> Ratio {
    s.rates().into_iter().find(|(c, _)| c == code).unwrap().1
}

#[test]
fn convert_eur_to_gbp() {
    let v = sample().convert("EUR", "GBP", amount(90, 1)).unwrap();
    assert!(value_is(v, 80, 1));
}

#[test]
fn rebase_onto_eur() {
    let s = sample();
    let r = s.with_base("EUR").unwrap();
    assert_eq!(r.base(), "EUR");
    assert_eq!(r.date(), "2024-01-02");
    let rates = r.rates();
    assert_eq!(rates.len(), 3);
    assert!(ratio_is(rate_of(&r, "USD"), 10, 9));
    assert!(ratio_is(rate_of(&r, "EUR"), 1, 1));
    assert!(ratio_is(rate_of(&r, "GBP"), 8, 9));
}

#[test]
fn convert_unknown_from_currency() {
    let e = sample().convert("JPY", "USD", amount(100, 1)).unwrap_err();
    assert_eq!(e, RateError::UnknownCurrency("JPY".to_string()));
}

#[test]
fn convert_reports_from_before_to() {
    let e = sample().convert("JPY", "CHF", amount(1, 1)).unwrap_err();
    assert_eq!(e, RateError::UnknownCurrency("JPY".to_string()));
}

#[test]
fn convert_unknown_to_currency() {
    let e = sample().convert("USD", "CHF", amount(1, 1)).unwrap_err();
    assert_eq!(e, RateError::UnknownCurrency("CHF".to_string()));
}

#[test]
fn rebase_unknown_leaves_snapshot() {
    let s = sample();
    let before = s.rates();
    let e = s.with_base("JPY").unwrap_err();
    assert_eq!(e, RateError::UnknownCurrency("JPY".to_string()));
    assert_eq!(s.rates(), before);
    assert_eq!(s.base(), "USD");
}

#[test]
fn rebase_round_trip() {
    let s = sample();
    let back = s.with_base("GBP").unwrap().with_base("USD").unwrap();
    assert_eq!(back.base(), "USD");
    assert_eq!(back.date(), s.date());
    let original = s.rates();
    let again = back.rates();
    assert_eq!(original.len(), again.len());
    for ((c1, r1), (c2, r2)) in original.iter().zip(again.iter()) {
        assert_eq!(c1, c2);
        assert!(ratio_is(*r2, r1.num, r1.den));
    }
}

#[test]
fn rebase_gives_unit_rate() {
    let r = sample().with_base("GBP").unwrap();
    assert!(ratio_is(rate_of(&r, "GBP"), 1, 1));
    assert!(ratio_is(rate_of(&r, "USD"), 10, 8));
}

#[test]
fn convert_to_same_currency() {
    let v = sample().convert("EUR", "EUR", amount(123, 4)).unwrap();
    assert!(value_is(v, 123, 4));
}

#[test]
fn convert_matches_rebased_rate() {
    let s = sample();
    let v = s.convert("GBP", "EUR", amount(7, 2)).unwrap();
    let r = rate_of(&s.with_base("GBP").unwrap(), "EUR");
    assert!(value_is(v, r.num as i128 * 7, r.den as u128 * 2));
    assert!(value_is(v, 63, 16));
}

#[test]
fn convert_there_and_back() {
    let s = sample();
    let v = s.convert("EUR", "GBP", amount(45, 2)).unwrap();
    let back = s
        .convert("GBP", "EUR", amount(v.num as i64, v.den as u64))
        .unwrap();
    assert!(value_is(back, 45, 2));
}

#[test]
fn convert_does_not_depend_on_base() {
    let s = sample();
    let r = s.with_base("GBP").unwrap();
    let direct = s.convert("EUR", "USD", amount(3, 1)).unwrap();
    let rebased = r.convert("EUR", "USD", amount(3, 1)).unwrap();
    assert!(value_is(direct, 10, 3));
    assert!(value_is(rebased, 10, 3));
}

#[test]
fn convert_negative_amount() {
    let v = sample().convert("USD", "EUR", amount(-10, 1)).unwrap();
    assert!(value_is(v, -9, 1));
}

#[test]
fn convert_zero_amount() {
    let v = sample().convert("GBP", "USD", amount(0, 1)).unwrap();
    assert_eq!(v.num, 0);
    assert!(v.den > 0);
}

#[test]
fn empty_snapshot() {
    let s = Rates::new("USD".to_string(), "latest".to_string(), vec![]);
    assert!(s.rates().is_empty());
    assert_eq!(
        s.with_base("USD").unwrap_err(),
        RateError::UnknownCurrency("USD".to_string())
    );
    assert!(s.convert("USD", "USD", amount(1, 1)).is_err());
}

#[test]
fn largest_values_are_exact() {
    let s = Rates::new(
        "AAA".to_string(),
        "2024-01-02".to_string(),
        vec![
            ("AAA".to_string(), q(1, u32::MAX)),
            ("BBB".to_string(), q(u32::MAX, 1)),
        ],
    );
    let v = s.convert("AAA", "BBB", amount(i64::MAX, 1)).unwrap();
    let m = u32::MAX as i128;
    assert_eq!(v.num, i64::MAX as i128 * m * m);
    assert_eq!(v.den, 1);
    let w = s.convert("BBB", "AAA", amount(i64::MIN, u64::MAX)).unwrap();
    assert_eq!(w.num, i64::MIN as i128);
    assert_eq!(w.den, u64::MAX as u128 * (m * m) as u128);
    let r = s.with_base("BBB").unwrap();
    assert!(ratio_is(rate_of(&r, "AAA"), 1, u32::MAX as u64 * u32::MAX as u64));
}

#[test]
fn rate_must_be_positive() {
    assert!(Rate::new(0, 1).is_none());
    assert!(Rate::new(1, 0).is_none());
    assert_eq!(Rate::new(3, 4), Some(Rate { num: 3, den: 4 }));
}

#[test]
fn base_must_be_listed() {
    let s = Rates::new(
        "USD".to_string(),
        "2024-01-02".to_string(),
        vec![("EUR".to_string(), q(9, 10)), ("GBP".to_string(), q(8, 10))],
    );
    assert_eq!(
        s.with_base("USD").unwrap_err(),
        RateError::UnknownCurrency("USD".to_string())
    );
    assert_eq!(
        s.convert("USD", "EUR", amount(1, 1)).unwrap_err(),
        RateError::UnknownCurrency("USD".to_string())
    );
    let v = s.convert("EUR", "GBP", amount(9, 1)).unwrap();
    assert!(value_is(v, 8, 1));
}
