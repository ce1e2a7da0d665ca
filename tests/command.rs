use fxrates::command::{parse_command, Command, ConvertArgs, Date};
use fxrates::ratio::Amount;

fn convert(from: &str, to: &str, num: i64, den: u64) -> Command {
    Command::Convert(Some(ConvertArgs {
        from: from.to_string(),
        to: to.to_string(),
        amount: Amount { num, den },
    }))
}

#[test]
fn plain_words() {
    assert_eq!(parse_command("load"), Command::Load(None));
    assert_eq!(parse_command("latest"), Command::Latest);
    assert_eq!(parse_command("list"), Command::List(None));
    assert_eq!(parse_command("convert"), Command::Convert(None));
    assert_eq!(parse_command("quit"), Command::Quit);
}

#[test]
fn load_with_date() {
    assert_eq!(
        parse_command("load 2024-01-02"),
        Command::Load(Some(Date { year: 2024, month: 1, day: 2 }))
    );
    assert_eq!(
        parse_command("load 2024-02-29"),
        Command::Load(Some(Date { year: 2024, month: 2, day: 29 }))
    );
    assert_eq!(
        parse_command("load 2000-02-29"),
        Command::Load(Some(Date { year: 2000, month: 2, day: 29 }))
    );
    assert_eq!(
        parse_command("load 2024-1-02"),
        Command::Unknown("load 2024-1-02".to_string())
    );
    assert_eq!(
        parse_command("load 2024/01/02"),
        Command::Unknown("load 2024/01/02".to_string())
    );
}

#[test]
fn load_with_impossible_date() {
    assert_eq!(parse_command("load 2024-13-45"), Command::InvalidDate);
    assert_eq!(parse_command("load 2023-02-29"), Command::InvalidDate);
    assert_eq!(parse_command("load 1900-02-29"), Command::InvalidDate);
    assert_eq!(parse_command("load 2024-04-31"), Command::InvalidDate);
    assert_eq!(parse_command("load 2024-00-10"), Command::InvalidDate);
    assert_eq!(parse_command("load 2024-01-00"), Command::InvalidDate);
}

#[test]
fn list_with_code() {
    assert_eq!(parse_command("list EUR"), Command::List(Some("EUR".to_string())));
    assert_eq!(parse_command("list eur"), Command::Unknown("list eur".to_string()));
    assert_eq!(parse_command("list EURO"), Command::Unknown("list EURO".to_string()));
}

#[test]
fn convert_with_arguments() {
    assert_eq!(parse_command("convert EUR GBP 90"), convert("EUR", "GBP", 90, 1));
    assert_eq!(parse_command("convert USD JPY 12.5"), convert("USD", "JPY", 125, 10));
    assert_eq!(parse_command("convert USD JPY 12."), convert("USD", "JPY", 12, 1));
    assert_eq!(parse_command("convert USD JPY 0.05"), convert("USD", "JPY", 5, 100));
    assert_eq!(
        parse_command("convert USD JPY 999999999999999999"),
        convert("USD", "JPY", 999999999999999999, 1)
    );
}

#[test]
fn convert_with_bad_arguments() {
    for line in [
        "convert USD JPY .5",
        "convert USD JPY 1.2.3",
        "convert USD JPY -1",
        "convert usd JPY 1",
        "convert USD JPY",
        "convert USD JPY 1e5",
    ] {
        assert_eq!(parse_command(line), Command::Unknown(line.to_string()));
    }
}

#[test]
fn convert_amount_too_large() {
    assert_eq!(
        parse_command("convert USD JPY 99999999999999999999"),
        Command::InvalidAmount
    );
    assert_eq!(
        parse_command("convert USD JPY 1.0000000000000000000"),
        Command::InvalidAmount
    );
}

#[test]
fn convert_long_amount_that_fits() {
    assert_eq!(
        parse_command("convert USD JPY 1234567890123456789"),
        convert("USD", "JPY", 1234567890123456789, 1)
    );
    assert_eq!(
        parse_command("convert USD JPY 0000000000000000001"),
        convert("USD", "JPY", 1, 1)
    );
    assert_eq!(
        parse_command("convert USD JPY 1.000000000000000000"),
        convert("USD", "JPY", 1000000000000000000, 1000000000000000000)
    );
}

#[test]
fn other_input() {
    for line in ["", "Load", "quit ", " list", "lists", "äöü", "convert EUR GBP 9€"] {
        assert_eq!(parse_command(line), Command::Unknown(line.to_string()));
    }
}
