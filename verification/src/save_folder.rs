//! The names of the folders that hold saved games: a number, and the day
//! and the time at which the game was saved.

use crate::decimal::{digits_of, parse_u32, parsed, push_decimal, push_two_digits, two_digits_of};
use crate::error::{Error, ParseFault};
use crate::files::text::push_char;
use vstd::prelude::*;

verus! {

/// A day and a time of day.
#[derive(Debug, Clone, Copy, PartialEq, Eq)]
pub struct Date {
    pub day: u32,
    pub month: u32,
    pub year: u32,
    pub hour: u32,
    pub minute: u32,
}

/// The parts of a date, one after another, with `first` between the year,
/// the month and the day, `middle` between the day and the hour, and `last`
/// between the hour and the minute: the year as it is, the other parts with
/// two digits at least.
pub open spec fn date_text(d: Date, first: Seq<char>, middle: Seq<char>, last: Seq<char>) -> Seq<
    char,
> {
    digits_of(d.year as nat) + first + two_digits_of(d.month as nat) + first + two_digits_of(
        d.day as nat,
    ) + middle + two_digits_of(d.hour as nat) + last + two_digits_of(d.minute as nat)
}

/// The number that `text` stands for.
fn number(text: &str) -> (r: Result<u32, Error>)
    ensures
        match r {
            Ok(n) => parsed(text@, u32::MAX as nat) == Some(n as nat),
            Err(e) => parsed(text@, u32::MAX as nat) is None && e == Error::ParseError(
                ParseFault::BadNumber,
            ),
        },
{
    match parse_u32(text) {
        Some(n) => Ok(n),
        None => Err(Error::ParseError(ParseFault::BadNumber)),
    }
}

impl Date {
    /// The date whose parts the five texts stand for;
    /// `ParseError(BadNumber)` if one of them is no decimal number below `2^32`.
    pub fn from_strings(day: &str, month: &str, year: &str, hour: &str, minute: &str) -> (r:
        Result<Self, Error>)
        ensures
            match r {
                Ok(d) => parsed(day@, u32::MAX as nat) == Some(d.day as nat) && parsed(
                    month@,
                    u32::MAX as nat,
                ) == Some(d.month as nat) && parsed(year@, u32::MAX as nat) == Some(d.year as nat)
                    && parsed(hour@, u32::MAX as nat) == Some(d.hour as nat) && parsed(
                    minute@,
                    u32::MAX as nat,
                ) == Some(d.minute as nat),
                Err(e) => e == Error::ParseError(ParseFault::BadNumber) && (parsed(
                    day@,
                    u32::MAX as nat,
                ) is None || parsed(month@, u32::MAX as nat) is None || parsed(
                    year@,
                    u32::MAX as nat,
                ) is None || parsed(hour@, u32::MAX as nat) is None || parsed(
                    minute@,
                    u32::MAX as nat,
                ) is None),
            },
    {
        let day = number(day)?;
        let month = number(month)?;
        let year = number(year)?;
        let hour = number(hour)?;
        let minute = number(minute)?;
        Ok(Self { day, month, year, hour, minute })
    }

    /// The parts of the date, with the given characters between them.
    fn text(&self, first: Option<char>, middle: Option<char>, last: Option<char>) -> (r: String)
        ensures
            r@ == date_text(*self, separator(first), separator(middle), separator(last)),
    {
        let mut out = String::new();
        push_decimal(&mut out, self.year as u64);
        push_separator(&mut out, first);
        push_two_digits(&mut out, self.month as u64);
        push_separator(&mut out, first);
        push_two_digits(&mut out, self.day as u64);
        push_separator(&mut out, middle);
        push_two_digits(&mut out, self.hour as u64);
        push_separator(&mut out, last);
        push_two_digits(&mut out, self.minute as u64);
        assert(out@ =~= date_text(*self, separator(first), separator(middle), separator(last)));
        out
    }

    /// Year, month, day, hour and minute with hyphens between them, as in `2025-10-06-17-49`.
    pub fn hyphenated_string(&self) -> (r: String)
        ensures
            r@ == date_text(*self, seq!['-'], seq!['-'], seq!['-']),
    {
        self.text(Some('-'), Some('-'), Some('-'))
    }

    /// Year, month, day, hour and minute with nothing between them, as in `202510061749`.
    pub fn date_string(&self) -> (r: String)
        ensures
            r@ == date_text(*self, Seq::empty(), Seq::empty(), Seq::empty()),
    {
        self.text(None, None, None)
    }

    /// The day and the time as they are read, as in `2025-10-06 17:49`.
    pub fn pretty_string(&self) -> (r: String)
        ensures
            r@ == date_text(*self, seq!['-'], seq![' '], seq![':']),
    {
        self.text(Some('-'), Some(' '), Some(':'))
    }

    /// Whether this date lies before `other`: years, months, days, hours
    /// and minutes are compared, in this order.
    pub fn is_before(&self, other: &Date) -> (r: bool)
        ensures
            r == date_before(*self, *other),
    {
        if self.year != other.year {
            self.year < other.year
        } else if self.month != other.month {
            self.month < other.month
        } else if self.day != other.day {
            self.day < other.day
        } else if self.hour != other.hour {
            self.hour < other.hour
        } else {
            self.minute < other.minute
        }
    }
}

/// Whether the date `a` lies before the date `b`.
pub open spec fn date_before(a: Date, b: Date) -> bool {
    if a.year != b.year {
        a.year < b.year
    } else if a.month != b.month {
        a.month < b.month
    } else if a.day != b.day {
        a.day < b.day
    } else if a.hour != b.hour {
        a.hour < b.hour
    } else {
        a.minute < b.minute
    }
}

/// The character `c` as a text, or the empty text.
pub open spec fn separator(c: Option<char>) -> Seq<char> {
    match c {
        Some(c) => seq![c],
        None => Seq::empty(),
    }
}

/// Appends `c`, if there is one.
fn push_separator(out: &mut String, c: Option<char>)
    ensures
        final(out)@ == old(out)@ + separator(c),
{
    match c {
        Some(c) => {
            push_char(out, c);
            assert(out@ =~= old(out)@ + separator(Some(c)));
        },
        None => {
            assert(out@ =~= old(out)@ + separator(None));
        },
    }
}

/// The groups that `regex::Regex::captures` finds in `text` for the regular
/// expression `pattern`: first the whole match, then the groups of the
/// expression in their order, each with the text it matched if it matched
/// any; none if the expression does not match, or is none.
pub uninterp spec fn regex_groups(pattern: Seq<char>, text: Seq<char>) -> Option<
    Seq<Option<Seq<char>>>,
>;

/// The texts of the groups `groups`.
pub open spec fn group_texts(groups: Seq<Option<String>>) -> Seq<Option<Seq<char>>> {
    Seq::new(
        groups.len(),
        |i: int|
            match groups[i] {
                Some(s) => Some(s@),
                None => None,
            },
    )
}

/// Calls `regex::Regex::new` and `regex::Regex::captures`, and hands the
/// groups out as texts.
///
/// Trusted: the groups depend on the expression and the text alone.
#[verifier::external_body]
fn capture_groups(pattern: &str, text: &str) -> (groups: Option<Vec<Option<String>>>)
    ensures
        match groups {
            Some(g) => regex_groups(pattern@, text@) == Some(group_texts(g@)),
            None => regex_groups(pattern@, text@) is None,
        },
{
    let expression = regex::Regex::new(pattern).ok()?;
    let found = expression.captures(text)?;
    Some(found.iter().map(|g| g.map(|m| m.as_str().to_string())).collect())
}

/// The regular expression for the names of folders of saved games: zeros,
/// the number of the saved game, and after ` - ` day, month, year, hour and
/// minute with hyphens between them.
pub open spec fn save_folder_pattern() -> Seq<char> {
    "(?m)^0+(\\d+) - (\\d+)-(\\d+)-(\\d+)-(\\d+)-(\\d+)$"@
}

/// The number and the date that the groups of the name of a folder stand
/// for: after the whole match, the number of the saved game, then day,
/// month, year, hour and minute; none if there are not these seven with a
/// text each for the last six, or if one of the six texts is no decimal
/// number below `2^32`.
pub open spec fn save_of_groups(groups: Seq<Option<Seq<char>>>) -> Option<(u32, Date)> {
    let limit = u32::MAX as nat;
    if groups.len() != 7 {
        None
    } else {
        match (groups[1], groups[2], groups[3], groups[4], groups[5], groups[6]) {
            (Some(n), Some(day), Some(month), Some(year), Some(hour), Some(minute)) => match (
                parsed(n, limit),
                parsed(day, limit),
                parsed(month, limit),
                parsed(year, limit),
                parsed(hour, limit),
                parsed(minute, limit),
            ) {
                (Some(n), Some(day), Some(month), Some(year), Some(hour), Some(minute)) => Some(
                    (
                        n as u32,
                        Date {
                            day: day as u32,
                            month: month as u32,
                            year: year as u32,
                            hour: hour as u32,
                            minute: minute as u32,
                        },
                    ),
                ),
                _ => None,
            },
            _ => None,
        }
    }
}

/// The number and the date of the saved game whose name gave the groups `groups`.
pub fn save_from_groups(groups: &Vec<Option<String>>) -> (r: Option<(u32, Date)>)
    ensures
        r == save_of_groups(group_texts(groups@)),
{
    if groups.len() != 7 {
        return None;
    }
    match (&groups[1], &groups[2], &groups[3], &groups[4], &groups[5], &groups[6]) {
        (Some(n), Some(day), Some(month), Some(year), Some(hour), Some(minute)) => {
            let number = parse_u32(n.as_str());
            let date = Date::from_strings(
                day.as_str(),
                month.as_str(),
                year.as_str(),
                hour.as_str(),
                minute.as_str(),
            );
            match (number, date) {
                (Some(n), Ok(d)) => Some((n, d)),
                _ => None,
            }
        },
        _ => None,
    }
}

/// The number and the date of the saved game in the folder with the name
/// `path`, as in `000003 - 06-10-2025-17-49`; none if the name has another
/// form or a number in it is too large.
pub fn get_save_folder_name(path: &str) -> (r: Option<(u32, Date)>)
    ensures
        r == match regex_groups(save_folder_pattern(), path@) {
            Some(groups) => save_of_groups(groups),
            None => None,
        },
{
    match capture_groups("(?m)^0+(\\d+) - (\\d+)-(\\d+)-(\\d+)-(\\d+)-(\\d+)$", path) {
        Some(groups) => save_from_groups(&groups),
        None => None,
    }
}

} // verus!
