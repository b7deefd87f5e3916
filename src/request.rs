//! Date specifiers: parsing user tokens and ranges.
use vstd::prelude::*;
use crate::calendar::{days_from_civil, is_civil_date, Date, Weekday};
use crate::text::{
    all_digits, chars_of, decimal_at_most, decimal_value, digit_value, digits_in, equals_word, is_digit,
    lower_seq, lowered_range,
};

verus! {

/// The furthest day ahead that the forecast provider serves.
pub const MAX_FORECAST_DAYS: u8 = 16;

/// A symbolic date, resolved against a reference date later on.
#[derive(Clone, Copy, Debug, PartialEq, Eq, Structural)]
pub enum RequestedDate {
    Today,
    Tomorrow,
    RelativeDays(u8),
    Weekday(Weekday),
    Absolute(Date),
}

/// Why a date or a range was refused.
#[derive(Clone, Copy, Debug, PartialEq, Eq, Structural)]
pub enum ParseError {
    /// A token that is none of the accepted forms.
    InvalidDate,
    /// A range with both sides empty.
    EmptyRange,
}

impl ParseError {
    /// A message for the user; for an invalid token it names the accepted forms.
    pub fn message(&self) -> (r: &'static str)
        ensures
            *self == ParseError::InvalidDate ==> r@
                == "dates must be YYYY-MM-DD, +N, weekday name, 'today' or 'tomorrow'"@,
            *self == ParseError::EmptyRange ==> r@ == "empty range '..' not allowed"@,
    {
        match self {
            ParseError::InvalidDate => "dates must be YYYY-MM-DD, +N, weekday name, 'today' or 'tomorrow'",
            ParseError::EmptyRange => "empty range '..' not allowed",
        }
    }
}

impl RequestedDate {
    /// An absolute date lies within chrono's range of dates.
    pub open spec fn in_range(self) -> bool {
        match self {
            RequestedDate::Absolute(d) => d.in_range(),
            _ => true,
        }
    }
}

/// The weekday that a lower-case name or three-letter abbreviation stands for.
pub open spec fn weekday_named(t: Seq<char>) -> Option<Weekday> {
    if t == "mon"@ || t == "monday"@ {
        Some(Weekday::Mon)
    } else if t == "tue"@ || t == "tuesday"@ {
        Some(Weekday::Tue)
    } else if t == "wed"@ || t == "wednesday"@ {
        Some(Weekday::Wed)
    } else if t == "thu"@ || t == "thursday"@ {
        Some(Weekday::Thu)
    } else if t == "fri"@ || t == "friday"@ {
        Some(Weekday::Fri)
    } else if t == "sat"@ || t == "saturday"@ {
        Some(Weekday::Sat)
    } else if t == "sun"@ || t == "sunday"@ {
        Some(Weekday::Sun)
    } else {
        None
    }
}

/// The day offset written in decimal digits, if it lies within the forecast horizon.
pub open spec fn day_offset_text(t: Seq<char>) -> Option<u8> {
    if t.len() > 0 && all_digits(t) && decimal_value(t) <= MAX_FORECAST_DAYS {
        Some(decimal_value(t) as u8)
    } else {
        None
    }
}

/// The year, month and day of a token of the strict form `YYYY-MM-DD`.
pub open spec fn iso_fields(t: Seq<char>) -> Option<(int, int, int)> {
    if t.len() == 10 && t[4] == '-' && t[7] == '-' && all_digits(t.subrange(0, 4)) && all_digits(
        t.subrange(5, 7),
    ) && all_digits(t.subrange(8, 10)) {
        Some(
            (
                decimal_value(t.subrange(0, 4)),
                decimal_value(t.subrange(5, 7)),
                decimal_value(t.subrange(8, 10)),
            ),
        )
    } else {
        None
    }
}

/// What a lower-case token denotes, the forms tried in this order: `today`, `tomorrow`, a
/// weekday, `+N`, `YYYY-MM-DD`.
pub open spec fn token_meaning(t: Seq<char>) -> Result<RequestedDate, ParseError> {
    if t == "today"@ {
        Ok(RequestedDate::Today)
    } else if t == "tomorrow"@ {
        Ok(RequestedDate::Tomorrow)
    } else if weekday_named(t) is Some {
        Ok(RequestedDate::Weekday(weekday_named(t)->0))
    } else if t.len() > 0 && t[0] == '+' && day_offset_text(t.drop_first()) is Some {
        Ok(RequestedDate::RelativeDays(day_offset_text(t.drop_first())->0))
    } else {
        match iso_fields(t) {
            Some((y, m, d)) => if is_civil_date(y, m, d) {
                Ok(RequestedDate::Absolute(Date { days: days_from_civil(y, m, d) as i32 }))
            } else {
                Err(ParseError::InvalidDate)
            },
            None => Err(ParseError::InvalidDate),
        }
    }
}

/// What a token denotes, whatever the case of its letters.
pub open spec fn date_meaning(s: Seq<char>) -> Result<RequestedDate, ParseError> {
    token_meaning(lower_seq(s))
}

/// Whether `s` holds the separator `..` at position `i`.
pub open spec fn dots_at(s: Seq<char>, i: int) -> bool {
    0 <= i && i + 1 < s.len() && s[i] == '.' && s[i + 1] == '.'
}

/// The first position at or after `i` where `s` holds the separator `..`.
pub open spec fn first_dots_from(s: Seq<char>, i: int) -> Option<int>
    decreases s.len() - i,
{
    if i < 0 || i + 1 >= s.len() {
        None
    } else if dots_at(s, i) {
        Some(i)
    } else {
        first_dots_from(s, i + 1)
    }
}

/// One side of a range: empty takes the side's default.
pub open spec fn side_meaning(s: Seq<char>, default: RequestedDate) -> Result<
    RequestedDate,
    ParseError,
> {
    if s.len() == 0 {
        Ok(default)
    } else {
        date_meaning(s)
    }
}

/// What a range expression denotes: split at the first `..`, an empty start meaning today and
/// an empty end the last forecast day; without a separator, one date for both ends.
pub open spec fn range_meaning(s: Seq<char>) -> Result<(RequestedDate, RequestedDate), ParseError> {
    match first_dots_from(s, 0) {
        Some(i) => {
            let left = s.subrange(0, i);
            let right = s.subrange(i + 2, s.len() as int);
            if left.len() == 0 && right.len() == 0 {
                Err(ParseError::EmptyRange)
            } else {
                match side_meaning(left, RequestedDate::Today) {
                    Err(e) => Err(e),
                    Ok(a) => match side_meaning(
                        right,
                        RequestedDate::RelativeDays(MAX_FORECAST_DAYS),
                    ) {
                        Err(e) => Err(e),
                        Ok(b) => Ok((a, b)),
                    },
                }
            }
        },
        None => match date_meaning(s) {
            Ok(d) => Ok((d, d)),
            Err(e) => Err(e),
        },
    }
}

fn parse_weekday(t: &Vec<char>) -> (r: Option<Weekday>)
    ensures
        r == weekday_named(t@),
{
    if equals_word(t, "mon") || equals_word(t, "monday") {
        Some(Weekday::Mon)
    } else if equals_word(t, "tue") || equals_word(t, "tuesday") {
        Some(Weekday::Tue)
    } else if equals_word(t, "wed") || equals_word(t, "wednesday") {
        Some(Weekday::Wed)
    } else if equals_word(t, "thu") || equals_word(t, "thursday") {
        Some(Weekday::Thu)
    } else if equals_word(t, "fri") || equals_word(t, "friday") {
        Some(Weekday::Fri)
    } else if equals_word(t, "sat") || equals_word(t, "saturday") {
        Some(Weekday::Sat)
    } else if equals_word(t, "sun") || equals_word(t, "sunday") {
        Some(Weekday::Sun)
    } else {
        None
    }
}

/// The day offset written in the digits of `t` from position `lo` on.
fn parse_day_offset(t: &Vec<char>, lo: usize) -> (r: Option<u8>)
    requires
        lo <= t@.len(),
    ensures
        r == day_offset_text(t@.subrange(lo as int, t@.len() as int)),
{
    let n = t.len();
    if lo < n && digits_in(t, lo, n) {
        match decimal_at_most(t, lo, n, MAX_FORECAST_DAYS as u32) {
            Some(v) => Some(v as u8),
            None => None,
        }
    } else {
        None
    }
}

/// The year, month and day of a strict `YYYY-MM-DD` token.
fn parse_iso_fields(t: &Vec<char>) -> (r: Option<(u32, u32, u32)>)
    ensures
        r matches Some((y, m, d)) ==> iso_fields(t@) == Some((y as int, m as int, d as int)) && y
            <= 9999,
        r is None <==> iso_fields(t@) is None,
{
    if t.len() == 10 && t[4] == '-' && t[7] == '-' && digits_in(t, 0, 4) && digits_in(t, 5, 7)
        && digits_in(t, 8, 10) {
        let y = decimal_at_most(t, 0, 4, 9999);
        let m = decimal_at_most(t, 5, 7, 99);
        let d = decimal_at_most(t, 8, 10, 99);
        proof {
            lemma_digits_below(t@.subrange(0, 4));
            lemma_digits_below(t@.subrange(5, 7));
            lemma_digits_below(t@.subrange(8, 10));
        }
        match (y, m, d) {
            (Some(y), Some(m), Some(d)) => Some((y, m, d)),
            _ => None,
        }
    } else {
        None
    }
}

/// A run of `n` digits (up to four) denotes less than ten to the `n`.
proof fn lemma_digits_below(s: Seq<char>)
    requires
        all_digits(s),
        s.len() <= 4,
    ensures
        decimal_value(s) < (if s.len() <= 1 { 10int } else if s.len() <= 2 { 100int } else if s.len()
            <= 3 { 1000int } else { 10000int }),
        decimal_value(s) >= 0,
    decreases s.len(),
{
    if s.len() > 0 {
        assert(all_digits(s.drop_last()));
        lemma_digits_below(s.drop_last());
        assert(is_digit(s[s.len() - 1]));
    }
}

/// What a lower-case token denotes.
fn parse_token(t: &Vec<char>) -> (r: Result<RequestedDate, ParseError>)
    ensures
        r == token_meaning(t@),
        r matches Ok(d) ==> d.in_range(),
{
    if equals_word(t, "today") {
        return Ok(RequestedDate::Today);
    }
    if equals_word(t, "tomorrow") {
        return Ok(RequestedDate::Tomorrow);
    }
    if let Some(w) = parse_weekday(t) {
        return Ok(RequestedDate::Weekday(w));
    }
    if t.len() > 0 && t[0] == '+' {
        assert(t@.subrange(1, t@.len() as int) =~= t@.drop_first());
        if let Some(n) = parse_day_offset(t, 1) {
            return Ok(RequestedDate::RelativeDays(n));
        }
    }
    match parse_iso_fields(t) {
        Some((y, m, d)) => match Date::from_ymd(y as i32, m, d) {
            Some(date) => Ok(RequestedDate::Absolute(date)),
            None => Err(ParseError::InvalidDate),
        },
        None => Err(ParseError::InvalidDate),
    }
}

/// Parses one date token, ignoring the case of its letters: `today`, `tomorrow`, a weekday
/// name or its three-letter abbreviation, `+N` for N days ahead (N in decimal digits, at most
/// `MAX_FORECAST_DAYS`), or a strict
/// `YYYY-MM-DD` calendar date.
pub fn parse_date(s: &str) -> (r: Result<RequestedDate, ParseError>)
    ensures
        r == date_meaning(s@),
        r matches Ok(d) ==> d.in_range(),
{
    let t = chars_of(s);
    let lower = lowered_range(&t, 0, t.len());
    assert(t@.subrange(0, t@.len() as int) =~= t@);
    parse_token(&lower)
}

/// The first separator found from `j` on is a separator, and none stands between `j` and it.
pub proof fn lemma_first_dots(s: Seq<char>, j: int)
    requires
        j >= 0,
    ensures
        first_dots_from(s, j) matches Some(i) ==> j <= i && dots_at(s, i) && forall|k: int|
            j <= k < i ==> !dots_at(s, k),
        first_dots_from(s, j) is None ==> forall|k: int| j <= k ==> !dots_at(s, k),
    decreases s.len() - j,
{
    if j + 1 < s.len() && !dots_at(s, j) {
        lemma_first_dots(s, j + 1);
    }
}

/// The first position of the separator `..` in `t`.
fn find_dots(t: &Vec<char>) -> (r: Option<usize>)
    ensures
        r matches Some(i) ==> first_dots_from(t@, 0) == Some(i as int),
        r is None <==> first_dots_from(t@, 0) is None,
{
    let n = t.len();
    let mut i: usize = 0;
    while n > 0 && i < n - 1
        invariant
            n == t@.len(),
            i <= n,
            first_dots_from(t@, 0) == first_dots_from(t@, i as int),
        decreases n - i,
    {
        if t[i] == '.' && t[i + 1] == '.' {
            return Some(i);
        }
        i = i + 1;
    }
    None
}

/// One side of a range, from `lo` up to `hi` in `t`; empty takes `default`.
fn parse_side(t: &Vec<char>, lo: usize, hi: usize, default: RequestedDate) -> (r: Result<
    RequestedDate,
    ParseError,
>)
    requires
        lo <= hi <= t@.len(),
        default.in_range(),
    ensures
        r == side_meaning(t@.subrange(lo as int, hi as int), default),
        r matches Ok(d) ==> d.in_range(),
{
    if lo == hi {
        Ok(default)
    } else {
        let lower = lowered_range(t, lo, hi);
        parse_token(&lower)
    }
}

/// Parses a date or a range `A..B`. Without `..` the one date is both ends. An empty start
/// means today and an empty end means `+16`, the last forecast day; `..` alone is refused.
pub fn parse_date_range(s: &str) -> (r: Result<(RequestedDate, RequestedDate), ParseError>)
    ensures
        r == range_meaning(s@),
        r matches Ok((a, b)) ==> a.in_range() && b.in_range(),
{
    let t = chars_of(s);
    let found = find_dots(&t);
    proof {
        lemma_first_dots(t@, 0);
    }
    match found {
        Some(i) => {
            let n = t.len();
            if i == 0 && n == 2 {
                return Err(ParseError::EmptyRange);
            }
            let a = parse_side(&t, 0, i, RequestedDate::Today);
            match a {
                Err(e) => Err(e),
                Ok(a) => {
                    let b = parse_side(&t, i + 2, n, RequestedDate::RelativeDays(MAX_FORECAST_DAYS));
                    match b {
                        Err(e) => Err(e),
                        Ok(b) => Ok((a, b)),
                    }
                },
            }
        },
        None => {
            let lower = lowered_range(&t, 0, t.len());
            assert(t@.subrange(0, t@.len() as int) =~= t@);
            match parse_token(&lower) {
                Ok(d) => Ok((d, d)),
                Err(e) => Err(e),
            }
        },
    }
}

/// Folding case twice is folding it once.
pub proof fn lemma_lower_idempotent(s: Seq<char>)
    ensures
        lower_seq(lower_seq(s)) == lower_seq(s),
{
    assert(lower_seq(lower_seq(s)) =~= lower_seq(s));
}

/// Parsing ignores case: two tokens that agree up to the case of their letters denote the same
/// date or are both refused, and every token denotes what its lower-case form denotes.
pub proof fn lemma_parse_ignores_case(a: Seq<char>, b: Seq<char>)
    requires
        lower_seq(a) == lower_seq(b),
    ensures
        date_meaning(a) == date_meaning(b),
        date_meaning(a) == date_meaning(lower_seq(a)),
{
    lemma_lower_idempotent(a);
}

/// A token without upper-case letters is its own lower-case form.
proof fn lemma_lower_plain(s: Seq<char>)
    requires
        forall|k: int| 0 <= k < s.len() ==> !('A' <= #[trigger] s[k] && s[k] <= 'Z'),
    ensures
        lower_seq(s) == s,
{
    assert(lower_seq(s) =~= s);
}

/// An empty start is today: `..X` parses as `today..X` for every non-empty `X`.
pub proof fn lemma_open_start(x: Seq<char>)
    requires
        x.len() > 0,
    ensures
        range_meaning("..".view() + x) == range_meaning("today..".view() + x),
{
    reveal_strlit("..");
    reveal_strlit("today..");
    reveal_strlit("today");
    let s1 = "..".view() + x;
    let s2 = "today..".view() + x;
    assert(dots_at(s1, 0));
    assert(first_dots_from(s1, 0) == Some(0int));
    assert(s1.subrange(2, s1.len() as int) =~= x);
    assert(s1.subrange(0, 0).len() == 0);
    lemma_first_dots(s2, 0);
    assert(dots_at(s2, 5));
    assert(first_dots_from(s2, 0) == Some(5int));
    assert(s2.subrange(7, s2.len() as int) =~= x);
    let word = s2.subrange(0, 5);
    assert(word =~= "today".view());
    lemma_today_word();
    let end = side_meaning(x, RequestedDate::RelativeDays(MAX_FORECAST_DAYS));
    let expected: Result<(RequestedDate, RequestedDate), ParseError> = match end {
        Err(e) => Err(e),
        Ok(b) => Ok((RequestedDate::Today, b)),
    };
    assert(range_meaning(s1) == expected);
    assert(range_meaning(s2) == expected);
}

/// The word `today` denotes today.
proof fn lemma_today_word()
    ensures
        side_meaning("today".view(), RequestedDate::Today) == Ok::<RequestedDate, ParseError>(
            RequestedDate::Today,
        ),
{
    reveal_strlit("today");
    lemma_lower_plain("today".view());
}

/// A valid token holds no `.`.
proof fn lemma_token_has_no_dot(t: Seq<char>)
    requires
        token_meaning(t) is Ok,
    ensures
        forall|k: int| 0 <= k < t.len() ==> t[k] != '.',
{
    reveal_strlit("today");
    reveal_strlit("tomorrow");
    reveal_strlit("mon");
    reveal_strlit("monday");
    reveal_strlit("tue");
    reveal_strlit("tuesday");
    reveal_strlit("wed");
    reveal_strlit("wednesday");
    reveal_strlit("thu");
    reveal_strlit("thursday");
    reveal_strlit("fri");
    reveal_strlit("friday");
    reveal_strlit("sat");
    reveal_strlit("saturday");
    reveal_strlit("sun");
    reveal_strlit("sunday");
    if t == "today".view() || t == "tomorrow".view() || weekday_named(t) is Some {
    } else if t.len() > 0 && t[0] == '+' && day_offset_text(t.drop_first()) is Some {
        assert forall|k: int| 0 <= k < t.len() implies t[k] != '.' by {
            if k > 0 {
                assert(is_digit(t.drop_first()[k - 1]));
            }
        }
    } else {
        assert forall|k: int| 0 <= k < t.len() implies t[k] != '.' by {
            if k < 4 {
                assert(is_digit(t.subrange(0, 4)[k]));
            } else if 5 <= k < 7 {
                assert(is_digit(t.subrange(5, 7)[k - 5]));
            } else if 8 <= k < 10 {
                assert(is_digit(t.subrange(8, 10)[k - 8]));
            }
        }
    }
}

/// An empty end is the last forecast day: `X..` parses as `X..+16` for every valid `X`.
pub proof fn lemma_open_end(x: Seq<char>)
    requires
        date_meaning(x) is Ok,
    ensures
        range_meaning(x + "..".view()) == range_meaning(x + "..+16".view()),
{
    reveal_strlit("..");
    reveal_strlit("..+16");
    reveal_strlit("today");
    reveal_strlit("tomorrow");
    reveal_strlit("mon");
    reveal_strlit("tue");
    reveal_strlit("wed");
    reveal_strlit("thu");
    reveal_strlit("fri");
    reveal_strlit("sat");
    reveal_strlit("sun");
    reveal_strlit("monday");
    reveal_strlit("tuesday");
    reveal_strlit("wednesday");
    reveal_strlit("thursday");
    reveal_strlit("friday");
    reveal_strlit("saturday");
    reveal_strlit("sunday");
    lemma_token_has_no_dot(lower_seq(x));
    assert forall|k: int| 0 <= k < x.len() implies x[k] != '.' by {
        assert(lower_seq(x)[k] != '.');
    }
    let n = x.len() as int;
    let s1 = x + "..".view();
    let s2 = x + "..+16".view();
    lemma_first_dots(s1, 0);
    lemma_first_dots(s2, 0);
    assert(dots_at(s1, n));
    assert(dots_at(s2, n));
    assert(s1.subrange(0, n) =~= x);
    assert(s2.subrange(0, n) =~= x);
    assert(s1.subrange(n + 2, s1.len() as int).len() == 0);
    let plus = s2.subrange(n + 2, s2.len() as int);
    assert(plus =~= seq!['+', '1', '6']);
    lemma_lower_plain(plus);
    let digits = plus.drop_first();
    assert(digits =~= seq!['1', '6']);
    assert(digits.drop_last() =~= seq!['1']);
    assert(digits.drop_last().drop_last() =~= Seq::<char>::empty());
    assert(decimal_value(digits.drop_last().drop_last()) == 0);
    assert(digit_value('1') == 1 && digit_value('6') == 6);
    assert(decimal_value(digits.drop_last()) == 1);
    assert(decimal_value(digits) == 16);
    assert(all_digits(digits));
    assert(day_offset_text(digits) == Some(16u8));
    assert(token_meaning(plus) == Ok::<RequestedDate, ParseError>(RequestedDate::RelativeDays(16)));
}

} // verus!
