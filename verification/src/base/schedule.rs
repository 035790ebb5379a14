//! Job schedules: a cron expression or shortcut, in a timezone.

use vstd::prelude::*;
use crate::base::duration::{duration_as_secs, duration_fits, duration_secs, duration_text_fits, duration_value, parse_duration, secs_duration};
use crate::text::{chars_of, is_space, is_whitespace, starts_with, starts_with_chars, string_of, strip_end, strip_start, trim, trim_chars, CharClass};

verus! {

/// Why a schedule cannot be built.
#[derive(Debug, Clone)]
pub enum ScheduleError {
    /// The expression is neither a shortcut, an interval nor a cron line.
    InvalidExpression(String),
    /// The time zone database does not know the timezone name.
    InvalidTimezone(String),
}

impl ScheduleError {
    /// The error's message.
    pub fn message(&self) -> (r: String)
        ensures
            r@ == match self {
                ScheduleError::InvalidExpression(e) => "invalid schedule expression: "@ + e@,
                ScheduleError::InvalidTimezone(t) => "invalid timezone: "@ + t@,
            },
    {
        match self {
            ScheduleError::InvalidExpression(e) => {
                let mut m = String::from_str("invalid schedule expression: ");
                m.append(e.as_str());
                m
            },
            ScheduleError::InvalidTimezone(t) => {
                let mut m = String::from_str("invalid timezone: ");
                m.append(t.as_str());
                m
            },
        }
    }
}

/// A schedule: when a job is triggered, and in which timezone.
#[derive(Debug, Clone)]
pub struct Schedule {
    expression: String,
    timezone: String,
}

/// The shortcuts `@yearly`, `@annually`, `@monthly`, `@weekly`, `@daily`,
/// `@midnight` and `@hourly`.
pub open spec fn is_shortcut(e: Seq<char>) -> bool {
    e == "@yearly"@ || e == "@annually"@ || e == "@monthly"@ || e == "@weekly"@ || e == "@daily"@
        || e == "@midnight"@ || e == "@hourly"@
}

/// The number of white-space separated words of `s`.
pub open spec fn word_count(s: Seq<char>) -> nat
    decreases s.len(),
{
    if s.len() == 0 {
        0
    } else {
        let starts_word = !is_space(s.last()) && (s.len() == 1 || is_space(s[s.len() - 2]));
        word_count(s.drop_last()) + if starts_word { 1nat } else { 0nat }
    }
}

/// `@every DURATION` with a duration of at least one second.
pub open spec fn is_interval(e: Seq<char>) -> bool {
    starts_with(e, "@every "@) && {
        let d = e.subrange("@every "@.len() as int, e.len() as int);
        duration_fits(d) && (duration_value(d) matches Ok(t) && t > 0)
    }
}

/// A schedule expression: after trimming, a shortcut, an interval, or a cron
/// line of five to seven fields.
pub open spec fn expression_valid(expression: Seq<char>) -> bool {
    let e = trim(expression);
    is_shortcut(e) || is_interval(e) || (!starts_with(e, "@"@) && 5 <= word_count(e) <= 7)
}

/// Whether `name` names a time zone of the IANA time zone database that
/// `chrono_tz` carries (`"UTC"`, `"America/New_York"`, ...), as its `Tz`
/// parser decides.
pub uninterp spec fn tz_database_name(name: Seq<char>) -> bool;

/// A timezone name: one that the time zone database knows.
pub open spec fn timezone_valid(tz: Seq<char>) -> bool {
    tz_database_name(tz)
}

/// `<chrono_tz::Tz as FromStr>::from_str`, asked only whether it succeeds: it
/// looks `name` up, exactly as written, among the database's zone names.
#[verifier::external_body]
fn is_tz_name(name: &str) -> (r: bool)
    ensures
        r == tz_database_name(name@),
{
    name.parse::<chrono_tz::Tz>().is_ok()
}

/// Every interval of at least one second is a schedule: `@every D` is a
/// valid expression whenever the duration text `D` (not ending in white
/// space) denotes a positive number of seconds that fits in a `u64`.
pub proof fn lemma_every_positive_duration_valid(d: Seq<char>)
    requires
        d.len() > 0,
        !is_space(d.last()),
        duration_fits(d),
        duration_value(d) matches Ok(t) && t > 0,
    ensures
        expression_valid("@every "@ + d),
{
    reveal_strlit("@every ");
    let e = "@every "@ + d;
    assert(e[0] == '@');
    assert(!is_space(e[0]));
    assert(e.last() == d.last());
    assert(strip_start(e, CharClass::Space) == e);
    assert(strip_end(e, CharClass::Space) == e);
    assert(trim(e) == e);
    assert(e.subrange(0, "@every "@.len() as int) =~= "@every "@);
    assert(e.subrange("@every "@.len() as int, e.len() as int) =~= d);
    assert(is_interval(e));
}

fn word_count_of(s: &[char]) -> (r: usize)
    ensures
        r == word_count(s@),
{
    let mut count: usize = 0;
    let mut i: usize = 0;
    while i < s.len()
        invariant
            i <= s@.len(),
            count == word_count(s@.subrange(0, i as int)),
            count <= i,
        decreases s@.len() - i,
    {
        let starts_word = !is_whitespace(s[i]) && (i == 0 || is_whitespace(s[i - 1]));
        proof {
            let p = s@.subrange(0, i + 1);
            assert(p.drop_last() =~= s@.subrange(0, i as int));
            assert(p.last() == s@[i as int]);
            if i > 0 {
                assert(p[p.len() - 2] == s@[i - 1]);
            }
        }
        if starts_word {
            count = count + 1;
        }
        i = i + 1;
    }
    assert(s@.subrange(0, s@.len() as int) =~= s@);
    count
}

fn is_word(s: &[char], w: &str) -> (r: bool)
    ensures
        r == (s@ == w@),
{
    let t = chars_of(w);
    if s.len() != t.len() {
        return false;
    }
    let mut i: usize = 0;
    while i < s.len()
        invariant
            s@.len() == t@.len(),
            t@ == w@,
            i <= s@.len(),
            forall|j: int| 0 <= j < i ==> s@[j] == t@[j],
        decreases s@.len() - i,
    {
        if s[i] != t[i] {
            return false;
        }
        i = i + 1;
    }
    assert(s@ =~= t@);
    true
}

fn check_expression(expression: &String) -> (r: bool)
    ensures
        r == expression_valid(expression@),
{
    let e = trim_chars(chars_of(expression.as_str()).as_slice());
    if is_word(e.as_slice(), "@yearly") || is_word(e.as_slice(), "@annually") || is_word(e.as_slice(), "@monthly")
        || is_word(e.as_slice(), "@weekly") || is_word(e.as_slice(), "@daily") || is_word(e.as_slice(), "@midnight")
        || is_word(e.as_slice(), "@hourly") {
        return true;
    }
    let every = chars_of("@every ");
    if starts_with_chars(e.as_slice(), every.as_slice()) {
        let rest = string_of(&e[every.len()..e.len()]);
        if duration_text_fits(rest.as_str()) {
            match parse_duration(rest.as_str()) {
                Ok(d) => {
                    if duration_as_secs(&d) > 0 {
                        return true;
                    }
                },
                Err(_) => {},
            }
        }
    }
    let at = chars_of("@");
    if starts_with_chars(e.as_slice(), at.as_slice()) {
        return false;
    }
    let n = word_count_of(e.as_slice());
    5 <= n && n <= 7
}

impl Schedule {
    /// A schedule for `expression`, in UTC.
    pub fn new(expression: String) -> (r: Result<Schedule, ScheduleError>)
        ensures
            expression_valid(expression@) ==> (r matches Ok(s) && s.expression_text() == expression@
                && s.timezone_text() == "UTC"@),
            !expression_valid(expression@) ==> (r matches Err(ScheduleError::InvalidExpression(e))
                && e@ == expression@),
    {
        if check_expression(&expression) {
            Ok(Schedule { expression, timezone: String::from_str("UTC") })
        } else {
            Err(ScheduleError::InvalidExpression(expression))
        }
    }

    /// A schedule for `expression` in the timezone `timezone`.
    pub fn with_timezone(expression: String, timezone: String) -> (r: Result<Schedule, ScheduleError>)
        ensures
            !expression_valid(expression@) ==> (r matches Err(ScheduleError::InvalidExpression(e))
                && e@ == expression@),
            expression_valid(expression@) && !timezone_valid(timezone@) ==> (r matches Err(
                ScheduleError::InvalidTimezone(t),
            ) && t@ == timezone@),
            expression_valid(expression@) && timezone_valid(timezone@) ==> (r matches Ok(s)
                && s.expression_text() == expression@ && s.timezone_text() == timezone@),
    {
        let known = is_tz_name(timezone.as_str());
        Schedule::with_checked_timezone(expression, timezone, known)
    }

    /// A schedule for `expression` in the timezone `timezone`, where
    /// `timezone_known` tells whether the time zone database knows that
    /// name. The expression is checked first.
    pub fn with_checked_timezone(expression: String, timezone: String, timezone_known: bool) -> (r: Result<Schedule, ScheduleError>)
        ensures
            !expression_valid(expression@) ==> (r matches Err(ScheduleError::InvalidExpression(e))
                && e@ == expression@),
            expression_valid(expression@) && !timezone_known ==> (r matches Err(
                ScheduleError::InvalidTimezone(t),
            ) && t@ == timezone@),
            expression_valid(expression@) && timezone_known ==> (r matches Ok(s)
                && s.expression_text() == expression@ && s.timezone_text() == timezone@),
    {
        if !check_expression(&expression) {
            return Err(ScheduleError::InvalidExpression(expression));
        }
        if !timezone_known {
            return Err(ScheduleError::InvalidTimezone(timezone));
        }
        Ok(Schedule { expression, timezone })
    }

    /// The schedule expression.
    pub fn expression(&self) -> (r: &str)
        ensures
            r@ == self.expression_text(),
    {
        self.expression.as_str()
    }

    /// The timezone name.
    pub fn timezone(&self) -> (r: &str)
        ensures
            r@ == self.timezone_text(),
    {
        self.timezone.as_str()
    }

    /// The expression of the schedule, as a specification value.
    pub closed spec fn expression_text(&self) -> Seq<char> {
        self.expression@
    }

    /// The timezone of the schedule, as a specification value.
    pub closed spec fn timezone_text(&self) -> Seq<char> {
        self.timezone@
    }
}

} // verus!
