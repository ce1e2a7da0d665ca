use vstd::prelude::*;

use crate::ratio::{Amount, Frac};

verus! {

/// Arguments of a conversion written out on the command line.
#[derive(Debug, PartialEq, Eq)]
pub struct ConvertArgs {
    pub from: String,
    pub to: String,
    pub amount: Amount,
}

/// A calendar date.
#[derive(Clone, Copy, Debug, PartialEq, Eq, Structural)]
pub struct Date {
    pub year: i32,
    pub month: u32,
    pub day: u32,
}

/// One line of user input, read as a command.
#[derive(Debug, PartialEq, Eq)]
pub enum Command {
    /// `load`, or `load YYYY-MM-DD` with the date.
    Load(Option<Date>),
    /// `load YYYY-MM-DD` naming a day that does not exist.
    InvalidDate,
    /// `latest`
    Latest,
    /// `list`, or `list CCC` with the code.
    List(Option<String>),
    /// `convert`, or `convert FROM TO AMOUNT` with its arguments.
    Convert(Option<ConvertArgs>),
    /// `convert FROM TO AMOUNT` whose amount is too large to hold exactly.
    InvalidAmount,
    /// `quit`
    Quit,
    /// Anything else, as typed.
    Unknown(String),
}

pub open spec fn is_digit(c: char) -> bool {
    '0' <= c <= '9'
}

pub open spec fn is_upper(c: char) -> bool {
    'A' <= c <= 'Z'
}

/// Three upper-case letters.
pub open spec fn is_code(t: Seq<char>) -> bool {
    t.len() == 3 && forall|i: int| 0 <= i < 3 ==> is_upper(#[trigger] t[i])
}

/// `YYYY-MM-DD` in shape: digits with dashes at positions four and seven.
pub open spec fn is_date_text(t: Seq<char>) -> bool {
    &&& t.len() == 10
    &&& forall|i: int|
        0 <= i < 10 ==> if i == 4 || i == 7 {
            #[trigger] t[i] == '-'
        } else {
            is_digit(t[i])
        }
}

/// Digits with at most one decimal point, starting with a digit.
pub open spec fn is_amount_text(t: Seq<char>) -> bool {
    &&& t.len() >= 1
    &&& is_digit(t[0])
    &&& forall|i: int| 0 <= i < t.len() ==> is_digit(#[trigger] t[i]) || t[i] == '.'
    &&& forall|i: int, j: int|
        0 <= i < t.len() && 0 <= j < t.len() && #[trigger] t[i] == '.' && #[trigger] t[j] == '.'
            ==> i == j
}

pub open spec fn digit_value(c: char) -> int {
    c as int - '0' as int
}

pub open spec fn is_leap_year(y: int) -> bool {
    (y % 4 == 0 && y % 100 != 0) || y % 400 == 0
}

pub open spec fn days_in_month(y: int, m: int) -> int {
    if m == 2 {
        if is_leap_year(y) {
            29
        } else {
            28
        }
    } else if m == 4 || m == 6 || m == 9 || m == 11 {
        30
    } else {
        31
    }
}

/// `y-m-d` is a day of the proleptic Gregorian calendar.
pub open spec fn is_calendar_date(y: int, m: int, d: int) -> bool {
    1 <= m <= 12 && 1 <= d <= days_in_month(y, m)
}

/// The year, month and day written in a `YYYY-MM-DD` text.
pub open spec fn date_fields(t: Seq<char>) -> (int, int, int) {
    (
        digit_value(t[0]) * 1000 + digit_value(t[1]) * 100 + digit_value(t[2]) * 10 + digit_value(
            t[3],
        ),
        digit_value(t[5]) * 10 + digit_value(t[6]),
        digit_value(t[8]) * 10 + digit_value(t[9]),
    )
}

/// Reads a decimal numeral from the left: the digits so far as one integer,
/// ten to the number of digits after the point, and whether the point was seen.
pub open spec fn scan(t: Seq<char>) -> (int, int, bool)
    decreases t.len(),
{
    if t.len() == 0 {
        (0, 1, false)
    } else {
        let p = scan(t.drop_last());
        if t.last() == '.' {
            (p.0, p.1, true)
        } else {
            (p.0 * 10 + digit_value(t.last()), if p.2 {
                p.1 * 10
            } else {
                p.1
            }, p.2)
        }
    }
}

/// The exact value of a decimal numeral.
pub open spec fn decimal_value(t: Seq<char>) -> Frac {
    (scan(t).0, scan(t).1)
}

/// The numerator fits an `i64` and the denominator a `u64`.
pub open spec fn amount_fits(t: Seq<char>) -> bool {
    scan(t).0 <= i64::MAX && scan(t).1 <= u64::MAX
}

pub open spec fn word_load() -> Seq<char> {
    seq!['l', 'o', 'a', 'd']
}

pub open spec fn word_latest() -> Seq<char> {
    seq!['l', 'a', 't', 'e', 's', 't']
}

pub open spec fn word_list() -> Seq<char> {
    seq!['l', 'i', 's', 't']
}

pub open spec fn word_convert() -> Seq<char> {
    seq!['c', 'o', 'n', 'v', 'e', 'r', 't']
}

pub open spec fn word_quit() -> Seq<char> {
    seq!['q', 'u', 'i', 't']
}

/// `load YYYY-MM-DD`
pub open spec fn is_load_date_line(s: Seq<char>) -> bool {
    &&& s.len() == 15
    &&& s.subrange(0, 4) == word_load()
    &&& s[4] == ' '
    &&& is_date_text(s.subrange(5, 15))
}

/// `list CCC`
pub open spec fn is_list_code_line(s: Seq<char>) -> bool {
    &&& s.len() == 8
    &&& s.subrange(0, 4) == word_list()
    &&& s[4] == ' '
    &&& is_code(s.subrange(5, 8))
}

/// `convert FROM TO AMOUNT`
pub open spec fn is_convert_line(s: Seq<char>) -> bool {
    &&& s.len() >= 17
    &&& s.subrange(0, 7) == word_convert()
    &&& s[7] == ' '
    &&& is_code(s.subrange(8, 11))
    &&& s[11] == ' '
    &&& is_code(s.subrange(12, 15))
    &&& s[15] == ' '
    &&& is_amount_text(s.subrange(16, s.len() as int))
}

/// What `parse_command` returns for the line `s`.
pub open spec fn parsed_as(s: Seq<char>, r: Command) -> bool {
    if s == word_load() {
        r == Command::Load(None)
    } else if is_load_date_line(s) {
        let f = date_fields(s.subrange(5, 15));
        if is_calendar_date(f.0, f.1, f.2) {
            r == Command::Load(Some(Date { year: f.0 as i32, month: f.1 as u32, day: f.2 as u32 }))
        } else {
            r == Command::InvalidDate
        }
    } else if s == word_latest() {
        r == Command::Latest
    } else if s == word_list() {
        r == Command::List(None)
    } else if is_list_code_line(s) {
        r matches Command::List(Some(c)) && c@ == s.subrange(5, 8)
    } else if s == word_convert() {
        r == Command::Convert(None)
    } else if is_convert_line(s) {
        if amount_fits(s.subrange(16, s.len() as int)) {
            r matches Command::Convert(Some(a)) && a.from@ == s.subrange(8, 11) && a.to@
                == s.subrange(12, 15) && a.amount.wf() && a.amount.value() == decimal_value(
                s.subrange(16, s.len() as int),
            )
        } else {
            r == Command::InvalidAmount
        }
    } else if s == word_quit() {
        r == Command::Quit
    } else {
        r matches Command::Unknown(t) && t@ == s
    }
}

/// Reads one line of input as a command.
pub fn parse_command(line: &str) -> (r: Command)
    ensures
        parsed_as(line@, r),
{
    let s = Ghost(line@);
    let n = line.unicode_len();
    proof {
        reveal_strlit("load");
        reveal_strlit("latest");
        reveal_strlit("list");
        reveal_strlit("convert");
        reveal_strlit("quit");
        assert("load"@ =~= word_load());
        assert("latest"@ =~= word_latest());
        assert("list"@ =~= word_list());
        assert("convert"@ =~= word_convert());
        assert("quit"@ =~= word_quit());
        assert(s@.subrange(0, n as int) =~= s@);
    }
    if word_at(line, n, 0, "load") && n == 4 {
        assert(s@ =~= word_load());
        return Command::Load(None);
    }
    if word_at(line, n, 0, "load") && n == 15 && line.get_char(4) == ' ' && date_at(line, n, 5) {
        assert(s@.subrange(0, 4) =~= word_load());
        assert(s@ != word_load());
        let ghost t = s@.subrange(5, 15);
        assert(t[0] == s@[5] && t[1] == s@[6] && t[2] == s@[7] && t[3] == s@[8]);
        assert(t[5] == s@[10] && t[6] == s@[11] && t[8] == s@[13] && t[9] == s@[14]);
        assert(is_digit(t[0]) && is_digit(t[1]) && is_digit(t[2]) && is_digit(t[3]));
        assert(is_digit(t[5]) && is_digit(t[6]) && is_digit(t[8]) && is_digit(t[9]));
        let year = digit_at_value(line, n, 5) * 1000 + digit_at_value(line, n, 6) * 100
            + digit_at_value(line, n, 7) * 10 + digit_at_value(line, n, 8);
        let month = digit_at_value(line, n, 10) * 10 + digit_at_value(line, n, 11);
        let day = digit_at_value(line, n, 13) * 10 + digit_at_value(line, n, 14);
        if !calendar_date(year as i32, month, day) {
            return Command::InvalidDate;
        }
        return Command::Load(Some(Date { year: year as i32, month, day }));
    }
    assert(!is_load_date_line(s@)) by {
        if is_load_date_line(s@) {
            assert(s@.subrange(0, 4) == "load"@);
        }
    }
    if word_at(line, n, 0, "latest") && n == 6 {
        assert(s@ =~= word_latest());
        return Command::Latest;
    }
    if word_at(line, n, 0, "list") && n == 4 {
        assert(s@ =~= word_list());
        return Command::List(None);
    }
    if word_at(line, n, 0, "list") && n == 8 && line.get_char(4) == ' ' && code_at(line, n, 5) {
        assert(s@.subrange(0, 4) =~= word_list());
        return Command::List(Some(line.substring_char(5, 8).to_owned()));
    }
    assert(!is_list_code_line(s@)) by {
        if is_list_code_line(s@) {
            assert(s@.subrange(0, 4) == "list"@);
        }
    }
    if word_at(line, n, 0, "convert") && n == 7 {
        assert(s@ =~= word_convert());
        return Command::Convert(None);
    }
    if n >= 17 && word_at(line, n, 0, "convert") && line.get_char(7) == ' ' && code_at(line, n, 8)
        && line.get_char(11) == ' ' && code_at(line, n, 12) && line.get_char(15) == ' '
        && amount_text_at(line, n, 16) {
        assert(s@.subrange(0, 7) =~= word_convert());
        assert(s@ != word_load() && s@ != word_latest() && s@ != word_list());
        let amount = match amount_at(line, n, 16) {
            Some(a) => a,
            None => {
                return Command::InvalidAmount;
            },
        };
        let args = ConvertArgs {
            from: line.substring_char(8, 11).to_owned(),
            to: line.substring_char(12, 15).to_owned(),
            amount,
        };
        return Command::Convert(Some(args));
    }
    assert(!is_convert_line(s@)) by {
        if is_convert_line(s@) {
            assert(s@.subrange(0, 7) == "convert"@);
        }
    }
    if word_at(line, n, 0, "quit") && n == 4 {
        assert(s@ =~= word_quit());
        return Command::Quit;
    }
    assert(s@ != word_quit()) by {
        if s@ == word_quit() {
            assert(s@.subrange(0, 4) =~= "quit"@);
        }
    }
    assert(s@ != word_load()) by {
        if s@ == word_load() {
            assert(s@.subrange(0, 4) =~= "load"@);
        }
    }
    assert(s@ != word_list()) by {
        if s@ == word_list() {
            assert(s@.subrange(0, 4) =~= "list"@);
        }
    }
    assert(s@ != word_latest()) by {
        if s@ == word_latest() {
            assert(s@.subrange(0, 6) =~= "latest"@);
        }
    }
    assert(s@ != word_convert()) by {
        if s@ == word_convert() {
            assert(s@.subrange(0, 7) =~= "convert"@);
        }
    }
    Command::Unknown(line.to_owned())
}

/// The characters of `w` stand in `line` from `start`.
fn word_at(line: &str, n: usize, start: usize, w: &str) -> (r: bool)
    requires
        n == line@.len(),
    ensures
        r == (start + w@.len() <= n && line@.subrange(start as int, start + w@.len()) == w@),
{
    let m = w.unicode_len();
    if start > n || m > n - start {
        return false;
    }
    let mut i: usize = 0;
    while i < m
        invariant
            m == w@.len(),
            start + m <= n,
            n == line@.len(),
            i <= m,
            forall|j: int| 0 <= j < i ==> line@[start + j] == w@[j],
        decreases m - i,
    {
        if line.get_char(start + i) != w.get_char(i) {
            assert(line@.subrange(start as int, start + m)[i as int] != w@[i as int]);
            return false;
        }
        i = i + 1;
    }
    assert(line@.subrange(start as int, start + m) =~= w@);
    true
}

/// The value of the digit at position `i`.
fn digit_at_value(line: &str, n: usize, i: usize) -> (r: u32)
    requires
        n == line@.len(),
        i < n,
        is_digit(line@[i as int]),
    ensures
        r == digit_value(line@[i as int]),
        r <= 9,
{
    let c = line.get_char(i);
    c as u32 - '0' as u32
}

/// Relies on chrono's `NaiveDate::from_ymd_opt`, which returns `None` exactly
/// when the month or day is invalid or the day does not exist; years 0 to
/// 9999 are within its range.
#[verifier::external_body]
fn calendar_date(year: i32, month: u32, day: u32) -> (r: bool)
    requires
        0 <= year <= 9999,
    ensures
        r == is_calendar_date(year as int, month as int, day as int),
{
    chrono::NaiveDate::from_ymd_opt(year, month, day).is_some()
}

fn upper_at(line: &str, n: usize, i: usize) -> (r: bool)
    requires
        n == line@.len(),
        i < n,
    ensures
        r == is_upper(line@[i as int]),
{
    let c = line.get_char(i);
    'A' <= c && c <= 'Z'
}

fn digit_at(line: &str, n: usize, i: usize) -> (r: bool)
    requires
        n == line@.len(),
        i < n,
    ensures
        r == is_digit(line@[i as int]),
{
    let c = line.get_char(i);
    '0' <= c && c <= '9'
}

/// A currency code stands in `line` from `start`.
fn code_at(line: &str, n: usize, start: usize) -> (r: bool)
    requires
        n == line@.len(),
        start + 3 <= n,
    ensures
        r == is_code(line@.subrange(start as int, start + 3)),
{
    let r = upper_at(line, n, start) && upper_at(line, n, start + 1) && upper_at(line, n, start + 2);
    let ghost t = line@.subrange(start as int, start + 3);
    assert(t[0] == line@[start as int] && t[1] == line@[start + 1] && t[2] == line@[start + 2]);
    r
}

/// A date in shape stands in `line` from `start` to its end.
fn date_at(line: &str, n: usize, start: usize) -> (r: bool)
    requires
        n == line@.len(),
        start + 10 == n,
    ensures
        r == is_date_text(line@.subrange(start as int, n as int)),
{
    let ghost t = line@.subrange(start as int, n as int);
    let mut i: usize = 0;
    while i < 10
        invariant
            n == line@.len(),
            start + 10 == n,
            t == line@.subrange(start as int, n as int),
            i <= 10,
            forall|j: int|
                0 <= j < i ==> if j == 4 || j == 7 {
                    #[trigger] t[j] == '-'
                } else {
                    is_digit(t[j])
                },
        decreases 10 - i,
    {
        let ok = if i == 4 || i == 7 {
            line.get_char(start + i) == '-'
        } else {
            digit_at(line, n, start + i)
        };
        assert(t[i as int] == line@[start + i]);
        if !ok {
            return false;
        }
        i = i + 1;
    }
    true
}

/// An amount in shape stands in `line` from `start` to its end.
fn amount_text_at(line: &str, n: usize, start: usize) -> (r: bool)
    requires
        n == line@.len(),
        start < n,
    ensures
        r == is_amount_text(line@.subrange(start as int, n as int)),
{
    let ghost t = line@.subrange(start as int, n as int);
    let m = n - start;
    if !digit_at(line, n, start) {
        assert(t[0] == line@[start as int]);
        return false;
    }
    let mut dot: Option<usize> = None;
    let mut i: usize = 0;
    while i < m
        invariant
            n == line@.len(),
            m == n - start,
            t == line@.subrange(start as int, n as int),
            i <= m,
            forall|j: int| 0 <= j < i ==> is_digit(#[trigger] t[j]) || t[j] == '.',
            dot is None ==> forall|j: int| 0 <= j < i ==> #[trigger] t[j] != '.',
            dot matches Some(d) ==> d < i && t[d as int] == '.' && forall|j: int|
                0 <= j < i && #[trigger] t[j] == '.' ==> j == d,
        decreases m - i,
    {
        assert(t[i as int] == line@[start + i]);
        let c = line.get_char(start + i);
        if c == '.' {
            if dot.is_some() {
                return false;
            }
            dot = Some(i);
        } else if !('0' <= c && c <= '9') {
            return false;
        }
        i = i + 1;
    }
    true
}

/// The values read from a prefix of an amount never exceed those read from
/// the whole of it.
proof fn lemma_scan_grows(t: Seq<char>, i: int)
    requires
        0 <= i <= t.len(),
        forall|j: int| 0 <= j < t.len() ==> is_digit(#[trigger] t[j]) || t[j] == '.',
    ensures
        0 <= scan(t.subrange(0, i)).0 <= scan(t).0,
        1 <= scan(t.subrange(0, i)).1 <= scan(t).1,
    decreases t.len(),
{
    if t.len() == 0 {
        assert(t.subrange(0, i) =~= t);
    } else {
        let u = t.drop_last();
        assert forall|j: int| 0 <= j < u.len() implies is_digit(#[trigger] u[j]) || u[j] == '.' by {
            assert(u[j] == t[j]);
        }
        assert(is_digit(t.last()) || t.last() == '.') by {
            assert(t.last() == t[t.len() - 1]);
        }
        if i == t.len() {
            assert(t.subrange(0, i) =~= t);
            lemma_scan_grows(u, u.len() as int);
            assert(u.subrange(0, u.len() as int) =~= u);
        } else {
            assert(u.subrange(0, i) =~= t.subrange(0, i));
            lemma_scan_grows(u, i);
        }
    }
}

/// The exact value of the amount text that stands in `line` from `start`,
/// when it fits.
fn amount_at(line: &str, n: usize, start: usize) -> (r: Option<Amount>)
    requires
        n == line@.len(),
        start < n,
        is_amount_text(line@.subrange(start as int, n as int)),
    ensures
        r is Some <==> amount_fits(line@.subrange(start as int, n as int)),
        r matches Some(a) ==> a.wf() && a.value() == decimal_value(
            line@.subrange(start as int, n as int),
        ),
{
    let ghost t = line@.subrange(start as int, n as int);
    let m = n - start;
    let mut num: i64 = 0;
    let mut den: u64 = 1;
    let mut seen = false;
    let mut i: usize = 0;
    proof {
        assert(t.subrange(0, 0) =~= Seq::<char>::empty());
    }
    while i < m
        invariant
            n == line@.len(),
            m == n - start,
            t == line@.subrange(start as int, n as int),
            is_amount_text(t),
            i <= m,
            scan(t.subrange(0, i as int)) == (num as int, den as int, seen),
            0 <= num,
            1 <= den,
        decreases m - i,
    {
        assert(t[i as int] == line@[start + i]);
        let c = line.get_char(start + i);
        proof {
            assert(t.subrange(0, i + 1).drop_last() =~= t.subrange(0, i as int));
            assert(t.subrange(0, i + 1).last() == c);
        }
        if c == '.' {
            seen = true;
        } else {
            let d = c as u32 - '0' as u32;
            let next_num: i128 = num as i128 * 10 + d as i128;
            let next_den: u128 = if seen {
                den as u128 * 10
            } else {
                den as u128
            };
            if next_num > i64::MAX as i128 || next_den > u64::MAX as u128 {
                proof {
                    lemma_scan_grows(t, i + 1);
                }
                return None;
            }
            num = next_num as i64;
            den = next_den as u64;
        }
        i = i + 1;
    }
    proof {
        assert(t.subrange(0, m as int) =~= t);
    }
    Some(Amount { num, den })
}

} // verus!
