//! Human-readable durations: `"30s"`, `"5m"`, `"2h"`, `"7d"` and combinations
//! such as `"1h30m"` or `"2d 12h 30m"`.

use vstd::prelude::*;
use std::time::Duration;
use crate::text::{
    lemma_decimal, digit_value,
    all_digits, alphabetic, chars_of, decimal, digits_value, is_alphabetic, is_ascii_digit, is_digit,
    is_space, is_whitespace, parse_u64_digits, string_of, char_string, decimal_chars,
};

verus! {

/// Errors that can occur when parsing durations.
#[derive(Debug)]
pub enum DurationParseError {
    /// Empty duration string.
    Empty,
    /// Invalid format.
    InvalidFormat(String),
    /// Invalid numeric value.
    InvalidNumber(String),
    /// Unknown unit.
    UnknownUnit(String),
}

/// A `DurationParseError` with its messages taken as character sequences.
pub enum DurationError {
    Empty,
    InvalidFormat(Seq<char>),
    InvalidNumber(Seq<char>),
    UnknownUnit(Seq<char>),
}

impl View for DurationParseError {
    type V = DurationError;

    open spec fn view(&self) -> DurationError {
        match self {
            DurationParseError::Empty => DurationError::Empty,
            DurationParseError::InvalidFormat(m) => DurationError::InvalidFormat(m@),
            DurationParseError::InvalidNumber(m) => DurationError::InvalidNumber(m@),
            DurationParseError::UnknownUnit(m) => DurationError::UnknownUnit(m@),
        }
    }
}

impl PartialEq for DurationParseError {
    fn eq(&self, other: &Self) -> (r: bool) {
        match (self, other) {
            (DurationParseError::Empty, DurationParseError::Empty) => true,
            (DurationParseError::InvalidFormat(a), DurationParseError::InvalidFormat(b)) => *a == *b,
            (DurationParseError::InvalidNumber(a), DurationParseError::InvalidNumber(b)) => *a == *b,
            (DurationParseError::UnknownUnit(a), DurationParseError::UnknownUnit(b)) => *a == *b,
            _ => false,
        }
    }
}

impl vstd::std_specs::cmp::PartialEqSpecImpl for DurationParseError {
    open spec fn obeys_eq_spec() -> bool {
        true
    }

    open spec fn eq_spec(&self, other: &Self) -> bool {
        self@ == other@
    }
}

/// The `Duration` that `Duration::from_secs(secs)` builds.
pub uninterp spec fn secs_duration(secs: u64) -> Duration;

/// The whole seconds of `d`, as `Duration::as_secs` reports them.
pub uninterp spec fn duration_secs(d: Duration) -> u64;

/// `Duration::from_secs`: a duration of `secs` whole seconds.
#[verifier::external_body]
pub(crate) fn duration_from_secs(secs: u64) -> (d: Duration)
    ensures
        d == secs_duration(secs),
        duration_secs(d) == secs,
{
    Duration::from_secs(secs)
}

/// `Duration::as_secs`: the whole seconds of `d`.
#[verifier::external_body]
pub(crate) fn duration_as_secs(d: &Duration) -> (secs: u64)
    ensures
        secs == duration_secs(*d),
{
    d.as_secs()
}

/// Seconds per unit: `s`, `m`, `h` and `d`.
pub open spec fn unit_seconds(c: char) -> Option<nat> {
    if c == 's' {
        Some(1)
    } else if c == 'm' {
        Some(60)
    } else if c == 'h' {
        Some(3600)
    } else if c == 'd' {
        Some(86400)
    } else {
        None
    }
}

/// Reads `s` left to right, with `total` seconds so far and the digits `cur`
/// not yet followed by a unit. Gives the total reached where reading stopped,
/// and the error that stopped it, if any.
pub open spec fn scan(s: Seq<char>, total: nat, cur: Seq<char>) -> (nat, Option<DurationError>)
    decreases s.len(),
{
    if s.len() == 0 {
        if cur.len() > 0 {
            (total, Some(DurationError::InvalidFormat("number without unit"@)))
        } else {
            (total, None)
        }
    } else {
        let c = s[0];
        let rest = s.drop_first();
        if is_digit(c) {
            scan(rest, total, cur.push(c))
        } else if alphabetic(c) {
            if cur.len() == 0 {
                (total, Some(DurationError::InvalidFormat("unit without preceding number"@)))
            } else if digits_value(cur) > u64::MAX {
                (total, Some(DurationError::InvalidNumber(cur)))
            } else {
                match unit_seconds(c) {
                    Some(m) => scan(rest, total + digits_value(cur) * m, seq![]),
                    None => (total, Some(DurationError::UnknownUnit(seq![c]))),
                }
            }
        } else if is_space(c) {
            scan(rest, total, cur)
        } else {
            (total, Some(DurationError::InvalidFormat("unexpected character: "@.push(c))))
        }
    }
}

/// The number of seconds a duration string denotes, or why it denotes none.
pub open spec fn duration_value(s: Seq<char>) -> Result<nat, DurationError> {
    if s.len() == 0 {
        Err(DurationError::Empty)
    } else {
        match scan(s, 0, seq![]).1 {
            None => Ok(scan(s, 0, seq![]).0),
            Some(e) => Err(e),
        }
    }
}

/// Reading `s` never accumulates more seconds than a `u64` holds.
pub open spec fn duration_fits(s: Seq<char>) -> bool {
    scan(s, 0, seq![]).0 <= u64::MAX
}

/// `n` followed by the unit `u`, or nothing when `n` is zero.
pub open spec fn unit_part(n: nat, u: char) -> Seq<char> {
    if n > 0 {
        decimal(n).push(u)
    } else {
        seq![]
    }
}

/// The compact form of `t` seconds: the largest units first, each unit that
/// is not zero, and `"0s"` for zero.
pub open spec fn format_secs(t: nat) -> Seq<char> {
    if t == 0 {
        seq!['0', 's']
    } else {
        unit_part(t / 86400, 'd') + unit_part((t % 86400) / 3600, 'h') + unit_part(
            (t % 3600) / 60,
            'm',
        ) + unit_part(t % 60, 's')
    }
}

proof fn lemma_scan_grows(s: Seq<char>, total: nat, cur: Seq<char>)
    ensures
        scan(s, total, cur).0 >= total,
    decreases s.len(),
{
    if s.len() > 0 {
        let c = s[0];
        let rest = s.drop_first();
        if is_digit(c) {
            lemma_scan_grows(rest, total, cur.push(c));
        } else if alphabetic(c) {
            if cur.len() > 0 && digits_value(cur) <= u64::MAX {
                if let Some(m) = unit_seconds(c) {
                    lemma_scan_grows(rest, total + digits_value(cur) * m, seq![]);
                }
            }
        } else if is_space(c) {
            lemma_scan_grows(rest, total, cur);
        }
    }
}

fn unit_multiplier(c: char) -> (r: Option<u64>)
    ensures
        match unit_seconds(c) {
            Some(m) => r == Some(m as u64),
            None => r is None,
        },
{
    if c == 's' {
        Some(1)
    } else if c == 'm' {
        Some(60)
    } else if c == 'h' {
        Some(3600)
    } else if c == 'd' {
        Some(86400)
    } else {
        None
    }
}

fn message(text: &str) -> (r: String)
    ensures
        r@ == text@,
{
    String::from_str(text)
}

/// Reads `s` as `scan` does; `None` when the total outgrows a `u64`.
fn scan_text(s: &str) -> (r: Option<Result<u64, DurationParseError>>)
    ensures
        match r {
            None => scan(s@, 0, seq![]).0 > u64::MAX,
            Some(Ok(t)) => scan(s@, 0, seq![]) == (t as nat, None::<DurationError>),
            Some(Err(e)) => scan(s@, 0, seq![]).0 <= u64::MAX && scan(s@, 0, seq![]).1 == Some(
                e@,
            ),
        },
{
    let chars = chars_of(s);
    let mut total: u64 = 0;
    let mut cur: Vec<char> = Vec::new();
    let mut i: usize = 0;
    assert(chars@.skip(0) =~= s@);
    while i < chars.len()
        invariant
            chars@ == s@,
            i <= chars@.len(),
            all_digits(cur@),
            scan(s@, 0, seq![]) == scan(chars@.skip(i as int), total as nat, cur@),
        decreases chars@.len() - i,
    {
        let c = chars[i];
        let ghost rest = chars@.skip(i as int);
        assert(rest[0] == c);
        assert(rest.drop_first() =~= chars@.skip(i + 1));
        if is_ascii_digit(c) {
            let ghost before = cur@;
            cur.push(c);
            proof {
                assert forall|k: int| 0 <= k < cur@.len() implies is_digit(#[trigger] cur@[k]) by {
                    if k < cur@.len() - 1 {
                        assert(cur@[k] == before[k]);
                    }
                }
            }
        } else if is_alphabetic(c) {
            if cur.len() == 0 {
                return Some(Err(DurationParseError::InvalidFormat(message("unit without preceding number"))));
            }
            let num_text = string_of(cur.as_slice());
            let num = match parse_u64_digits(num_text.as_str()) {
                Some(n) => n,
                None => {
                    return Some(Err(DurationParseError::InvalidNumber(num_text)));
                },
            };
            let m = match unit_multiplier(c) {
                Some(m) => m,
                None => {
                    let unit = char_string(c);
                    return Some(Err(DurationParseError::UnknownUnit(unit)));
                },
            };
            let ghost next_total: nat = (total + digits_value(cur@) * (m as nat)) as nat;
            proof {
                lemma_scan_grows(chars@.skip(i + 1), next_total, seq![]);
            }
            let part = match num.checked_mul(m) {
                Some(p) => p,
                None => {
                    return None;
                },
            };
            total = match total.checked_add(part) {
                Some(t) => t,
                None => {
                    return None;
                },
            };
            cur = Vec::new();
        } else if is_whitespace(c) {
        } else {
            let mut text = message("unexpected character: ");
            let unit = char_string(c);
            text.append(unit.as_str());
            assert(text@ =~= "unexpected character: "@.push(c));
            return Some(Err(DurationParseError::InvalidFormat(text)));
        }
        i = i + 1;
    }
    if cur.len() > 0 {
        return Some(Err(DurationParseError::InvalidFormat(message("number without unit"))));
    }
    Some(Ok(total))
}

/// Whether `parse_duration` can read `s` without its total outgrowing a `u64`.
pub fn duration_text_fits(s: &str) -> (r: bool)
    ensures
        r == duration_fits(s@),
{
    scan_text(s).is_some()
}

/// Parse a human-readable duration string into a `Duration`.
///
/// Units are `s` (seconds), `m` (minutes), `h` (hours) and `d` (days); they can
/// be combined (`"1h30m"`, `"2d12h30m"`) and whitespace between parts is skipped.
pub fn parse_duration(s: &str) -> (r: Result<Duration, DurationParseError>)
    requires
        duration_fits(s@),
    ensures
        match duration_value(s@) {
            Ok(t) => r == Ok::<Duration, DurationParseError>(secs_duration(t as u64)) && duration_secs(
                secs_duration(t as u64),
            ) == t,
            Err(e) => r matches Err(x) && x@ == e,
        },
{
    if s.is_empty() {
        return Err(DurationParseError::Empty);
    }
    match scan_text(s) {
        Some(Ok(t)) => Ok(duration_from_secs(t)),
        Some(Err(e)) => Err(e),
        None => {
            proof {
                assert(false);
            }
            Err(DurationParseError::Empty)
        },
    }
}

fn append_part(out: &mut Vec<char>, n: u64, unit: char)
    ensures
        final(out)@ == old(out)@ + unit_part(n as nat, unit),
{
    if n > 0 {
        let mut digits = decimal_chars(n);
        digits.push(unit);
        out.append(&mut digits);
    } else {
        assert(old(out)@ + unit_part(n as nat, unit) =~= old(out)@);
    }
}

/// The compact text of `total` seconds: `"30s"`, `"5m"`, `"1h30m"`,
/// `"1d2h3m4s"`, and `"0s"` for zero.
pub fn format_seconds(total: u64) -> (r: String)
    ensures
        r@ == format_secs(total as nat),
{
    let mut out: Vec<char> = Vec::new();
    if total == 0 {
        out.push('0');
        out.push('s');
        assert(out@ =~= format_secs(0));
        return string_of(out.as_slice());
    }
    append_part(&mut out, total / 86400, 'd');
    append_part(&mut out, (total % 86400) / 3600, 'h');
    append_part(&mut out, (total % 3600) / 60, 'm');
    append_part(&mut out, total % 60, 's');
    assert(out@ =~= format_secs(total as nat));
    string_of(out.as_slice())
}

/// Format a `Duration` as a human-readable string.
///
/// Gives the most compact form of its whole seconds, using the largest
/// units first: `"30s"`, `"5m"`, `"1h30m"`, `"1d2h3m4s"`, and `"0s"` for zero.
pub fn format_duration(duration: Duration) -> (r: String)
    ensures
        r@ == format_secs(duration_secs(duration) as nat),
{
    format_seconds(duration_as_secs(&duration))
}

proof fn lemma_scan_digits(d: Seq<char>, rest: Seq<char>, total: nat, cur: Seq<char>)
    requires
        all_digits(d),
    ensures
        scan(d + rest, total, cur) == scan(rest, total, cur + d),
    decreases d.len(),
{
    if d.len() == 0 {
        assert(d + rest =~= rest);
        assert(cur + d =~= cur);
    } else {
        let s = d + rest;
        assert(s[0] == d[0]);
        assert(is_digit(d[0]));
        assert(s.drop_first() =~= d.drop_first() + rest);
        assert(all_digits(d.drop_first())) by {
            assert forall|i: int| 0 <= i < d.drop_first().len() implies is_digit(
                #[trigger] d.drop_first()[i],
            ) by {
                assert(d.drop_first()[i] == d[i + 1]);
            }
        }
        lemma_scan_digits(d.drop_first(), rest, total, cur.push(d[0]));
        assert(cur.push(d[0]) + d.drop_first() =~= cur + d);
    }
}

proof fn lemma_scan_part(n: nat, unit: char, m: nat, rest: Seq<char>, total: nat)
    requires
        n <= u64::MAX,
        unit_seconds(unit) == Some(m),
    ensures
        scan(unit_part(n, unit) + rest, total, seq![]) == scan(rest, total + n * m, seq![]),
{
    if n == 0 {
        assert(unit_part(n, unit) + rest =~= rest);
    } else {
        lemma_decimal(n);
        let d = decimal(n);
        assert(unit_part(n, unit) + rest =~= d + (seq![unit] + rest));
        lemma_scan_digits(d, seq![unit] + rest, total, seq![]);
        assert(Seq::<char>::empty() + d =~= d);
        let s = seq![unit] + rest;
        assert(s[0] == unit);
        assert(s.drop_first() =~= rest);
        assert(!is_digit(unit));
        assert(alphabetic(unit));
    }
}

proof fn lemma_split_seconds(t: nat)
    ensures
        t == (t / 86400) * 86400 + ((t % 86400) / 3600) * 3600 + ((t % 3600) / 60) * 60 + t % 60,
{
    let r = t % 86400;
    let q = t % 3600;
    vstd::arithmetic::div_mod::lemma_fundamental_div_mod(t as int, 86400);
    vstd::arithmetic::div_mod::lemma_fundamental_div_mod(r as int, 3600);
    vstd::arithmetic::div_mod::lemma_fundamental_div_mod(q as int, 60);
    vstd::arithmetic::div_mod::lemma_mod_mod(t as int, 3600, 24);
    vstd::arithmetic::div_mod::lemma_mod_mod(t as int, 60, 60);
    assert(3600 * 24 == 86400);
    assert(60 * 60 == 3600);
}

/// Formatting a number of seconds and parsing the text back gives the same
/// number of seconds, and parsing it stays within a `u64`.
pub proof fn lemma_format_then_parse(t: u64)
    ensures
        duration_fits(format_secs(t as nat)),
        duration_value(format_secs(t as nat)) == Ok::<nat, DurationError>(t as nat),
{
    let t = t as nat;
    if t == 0 {
        let s = format_secs(0);
        assert(s[0] == '0');
        assert(is_digit('0'));
        assert(s.drop_first() =~= seq!['s']);
        assert(seq!['s'].drop_first() =~= Seq::<char>::empty());
        assert(alphabetic('s'));
        let cur = Seq::<char>::empty().push('0');
        assert(cur.drop_last() =~= Seq::<char>::empty());
        assert(cur.last() == '0');
        assert(digits_value(Seq::<char>::empty()) == 0);
        assert(digits_value(cur) == digits_value(cur.drop_last()) * 10 + digit_value(cur.last()));
        assert(digits_value(cur) == 0);
        assert(scan(seq!['s'], 0, cur) == scan(Seq::<char>::empty(), 0, seq![]));
        assert(scan(s, 0, seq![]) == scan(seq!['s'], 0, cur));
    } else {
        let d = t / 86400;
        let h = (t % 86400) / 3600;
        let mi = (t % 3600) / 60;
        let sec = t % 60;
        let p1 = unit_part(d, 'd');
        let p2 = unit_part(h, 'h');
        let p3 = unit_part(mi, 'm');
        let p4 = unit_part(sec, 's');
        let e = Seq::<char>::empty();
        assert(format_secs(t) =~= p1 + (p2 + (p3 + (p4 + e))));
        lemma_scan_part(d, 'd', 86400, p2 + (p3 + (p4 + e)), 0);
        lemma_scan_part(h, 'h', 3600, p3 + (p4 + e), d * 86400);
        lemma_scan_part(mi, 'm', 60, p4 + e, d * 86400 + h * 3600);
        lemma_scan_part(sec, 's', 1, e, d * 86400 + h * 3600 + mi * 60);
        lemma_split_seconds(t);
        assert(format_secs(t).len() > 0) by {
            lemma_decimal(sec);
            lemma_decimal(mi);
            lemma_decimal(h);
            lemma_decimal(d);
        }
    }
}

proof fn lemma_scan_shift(s: Seq<char>, total: nat, k: nat, cur: Seq<char>)
    ensures
        scan(s, total + k, cur) == (scan(s, total, cur).0 + k, scan(s, total, cur).1),
    decreases s.len(),
{
    if s.len() > 0 {
        let c = s[0];
        let rest = s.drop_first();
        if is_digit(c) {
            lemma_scan_shift(rest, total, k, cur.push(c));
        } else if alphabetic(c) {
            if cur.len() > 0 && digits_value(cur) <= u64::MAX {
                if let Some(m) = unit_seconds(c) {
                    lemma_scan_shift(rest, total + digits_value(cur) * m, k, seq![]);
                    assert(total + k + digits_value(cur) * m == total + digits_value(cur) * m + k);
                }
            }
        } else if is_space(c) {
            lemma_scan_shift(rest, total, k, cur);
        }
    }
}

proof fn lemma_scan_append(a: Seq<char>, b: Seq<char>, total: nat, cur: Seq<char>)
    requires
        scan(a, total, cur).1 is None,
    ensures
        scan(a + b, total, cur) == scan(b, scan(a, total, cur).0, seq![]),
    decreases a.len(),
{
    if a.len() == 0 {
        assert(a + b =~= b);
        assert(cur =~= Seq::<char>::empty());
    } else {
        let c = a[0];
        assert((a + b)[0] == c);
        assert((a + b).drop_first() =~= a.drop_first() + b);
        if is_digit(c) {
            lemma_scan_append(a.drop_first(), b, total, cur.push(c));
        } else if alphabetic(c) {
            if let Some(m) = unit_seconds(c) {
                lemma_scan_append(a.drop_first(), b, total + digits_value(cur) * m, seq![]);
            }
        } else if is_space(c) {
            lemma_scan_append(a.drop_first(), b, total, cur);
        }
    }
}

/// Durations add up: when `a` and `b` are both valid duration strings, the
/// string `a` followed by `b` denotes the sum of their seconds, and it fits
/// in a `u64` exactly when that sum does.
pub proof fn lemma_parse_concat(a: Seq<char>, b: Seq<char>)
    requires
        duration_value(a) is Ok,
        duration_value(b) is Ok,
    ensures
        duration_value(a + b) == Ok::<nat, DurationError>(
            duration_value(a)->Ok_0 + duration_value(b)->Ok_0,
        ),
        duration_fits(a + b) == (duration_value(a)->Ok_0 + duration_value(b)->Ok_0 <= u64::MAX),
{
    let x = scan(a, 0, seq![]).0;
    lemma_scan_append(a, b, 0, seq![]);
    lemma_scan_shift(b, 0, x, seq![]);
    assert(0 + x == x);
    assert((a + b).len() > 0);
}

proof fn lemma_scan_spaces(w: Seq<char>, rest: Seq<char>, total: nat, cur: Seq<char>)
    requires
        forall|i: int| 0 <= i < w.len() ==> is_space(#[trigger] w[i]) && !alphabetic(w[i]),
    ensures
        scan(w + rest, total, cur) == scan(rest, total, cur),
    decreases w.len(),
{
    if w.len() == 0 {
        assert(w + rest =~= rest);
    } else {
        let c = w[0];
        assert(is_space(c));
        assert((w + rest)[0] == c);
        assert((w + rest).drop_first() =~= w.drop_first() + rest);
        assert(!is_digit(c));
        assert(!alphabetic(c));
        assert forall|i: int| 0 <= i < w.drop_first().len() implies is_space(
            #[trigger] w.drop_first()[i],
        ) && !alphabetic(w.drop_first()[i]) by {
            assert(w.drop_first()[i] == w[i + 1]);
        }
        lemma_scan_spaces(w.drop_first(), rest, total, cur);
    }
}

proof fn lemma_scan_insert_spaces(
    a: Seq<char>,
    w: Seq<char>,
    b: Seq<char>,
    total: nat,
    cur: Seq<char>,
)
    requires
        forall|i: int| 0 <= i < w.len() ==> is_space(#[trigger] w[i]) && !alphabetic(w[i]),
    ensures
        scan(a + w + b, total, cur) == scan(a + b, total, cur),
    decreases a.len(),
{
    if a.len() == 0 {
        assert(a + w + b =~= w + b);
        assert(a + b =~= b);
        lemma_scan_spaces(w, b, total, cur);
    } else {
        let c = a[0];
        assert((a + w + b)[0] == c);
        assert((a + b)[0] == c);
        assert((a + w + b).drop_first() =~= a.drop_first() + w + b);
        assert((a + b).drop_first() =~= a.drop_first() + b);
        if is_digit(c) {
            lemma_scan_insert_spaces(a.drop_first(), w, b, total, cur.push(c));
        } else if alphabetic(c) {
            if cur.len() > 0 && digits_value(cur) <= u64::MAX {
                if let Some(m) = unit_seconds(c) {
                    lemma_scan_insert_spaces(
                        a.drop_first(),
                        w,
                        b,
                        total + digits_value(cur) * m,
                        seq![],
                    );
                }
            }
        } else if is_space(c) {
            lemma_scan_insert_spaces(a.drop_first(), w, b, total, cur);
        }
    }
}

/// White space is skipped: putting white space that is not also a letter
/// anywhere into a non-empty duration string changes neither what it denotes
/// nor whether it fits.
pub proof fn lemma_parse_skips_spaces(a: Seq<char>, w: Seq<char>, b: Seq<char>)
    requires
        (a + b).len() > 0,
        forall|i: int| 0 <= i < w.len() ==> is_space(#[trigger] w[i]) && !alphabetic(w[i]),
    ensures
        duration_value(a + w + b) == duration_value(a + b),
        duration_fits(a + w + b) == duration_fits(a + b),
{
    lemma_scan_insert_spaces(a, w, b, 0, seq![]);
}

/// What each unit means: a number followed by `s`, `m`, `h` or `d` is that
/// many seconds, minutes (60 s), hours (3600 s) or days (86400 s).
pub proof fn lemma_parse_single_unit(n: nat, u: char)
    requires
        n <= u64::MAX,
        u == 's' || u == 'm' || u == 'h' || u == 'd',
    ensures
        duration_value(decimal(n).push(u)) == Ok::<nat, DurationError>(
            n * if u == 's' {
                1nat
            } else if u == 'm' {
                60nat
            } else if u == 'h' {
                3600nat
            } else {
                86400nat
            },
        ),
{
    lemma_decimal(n);
    let d = decimal(n);
    assert(d + seq![u] =~= d.push(u));
    lemma_scan_digits(d, seq![u], 0, seq![]);
    assert(Seq::<char>::empty() + d =~= d);
    let s = seq![u];
    assert(s[0] == u);
    assert(s.drop_first() =~= Seq::<char>::empty());
    assert(!is_digit(u));
    assert(alphabetic(u));
    let m: nat = if u == 's' {
        1nat
    } else if u == 'm' {
        60nat
    } else if u == 'h' {
        3600nat
    } else {
        86400nat
    };
    assert(unit_seconds(u) == Some(m));
    assert(d.len() > 0 && digits_value(d) == n);
    assert(scan(s, 0, d) == scan(Seq::<char>::empty(), 0 + n * m, seq![]));
    assert(scan(d.push(u), 0, seq![]) == (n * m, None::<DurationError>));
    assert(d.push(u).len() > 0);
}

proof fn lemma_split_small(t: nat, unit: nat, n: nat)
    requires
        unit == 1 || unit == 60 || unit == 3600 || unit == 86400,
        t == n * unit,
    ensures
        unit == 60 ==> t % 60 == 0 && (t % 3600) / 60 == n % 60,
        unit == 3600 ==> t % 60 == 0 && t % 3600 == 0 && (t % 86400) / 3600 == n % 24,
        unit == 86400 ==> t % 60 == 0 && t % 3600 == 0 && t % 86400 == 0 && t / 86400 == n,
{
    if unit == 60 {
        assert(t % 60 == 0) by (nonlinear_arith) requires t == n * 60;
        assert((t % 3600) / 60 == n % 60) by (nonlinear_arith) requires t == n * 60;
    } else if unit == 3600 {
        assert(t % 60 == 0) by (nonlinear_arith) requires t == n * 3600;
        assert(t % 3600 == 0) by (nonlinear_arith) requires t == n * 3600;
        assert((t % 86400) / 3600 == n % 24) by (nonlinear_arith) requires t == n * 3600;
    } else if unit == 86400 {
        assert(t % 60 == 0) by (nonlinear_arith) requires t == n * 86400;
        assert(t % 3600 == 0) by (nonlinear_arith) requires t == n * 86400;
        assert(t % 86400 == 0) by (nonlinear_arith) requires t == n * 86400;
        assert(t / 86400 == n) by (nonlinear_arith) requires t == n * 86400;
    } else {
        assert(t == n);
    }
}

/// A whole number of one unit is written with that unit alone: `n`
/// seconds below a minute as `"ns"`, `n` minutes below an hour as `"nm"`,
/// `n` hours below a day as `"nh"`, and `n` days as `"nd"`.
pub proof fn lemma_format_single_unit(n: nat)
    requires
        n > 0,
    ensures
        n < 60 ==> format_secs(n) == decimal(n).push('s'),
        n < 60 ==> format_secs(n * 60) == decimal(n).push('m'),
        n < 24 ==> format_secs(n * 3600) == decimal(n).push('h'),
        format_secs(n * 86400) == decimal(n).push('d'),
{
    let e = Seq::<char>::empty();
    if n < 60 {
        assert(format_secs(n) =~= decimal(n).push('s'));
        let t = n * 60;
        lemma_split_small(t, 60, n);
        assert(t < 3600) by (nonlinear_arith) requires t == n * 60, n < 60;
        assert(format_secs(t) =~= decimal(n).push('m'));
    }
    if n < 24 {
        let t = n * 3600;
        lemma_split_small(t, 3600, n);
        assert(t < 86400) by (nonlinear_arith) requires t == n * 3600, n < 24;
        assert(t > 0) by (nonlinear_arith) requires t == n * 3600, n > 0;
        assert(format_secs(t) =~= decimal(n).push('h'));
    }
    let t = n * 86400;
    lemma_split_small(t, 86400, n);
    assert(t > 0) by (nonlinear_arith) requires t == n * 86400, n > 0;
    assert(format_secs(t) =~= decimal(n).push('d'));
}

} // verus!
