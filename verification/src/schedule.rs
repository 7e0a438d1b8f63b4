//! When a recurring job runs next.

use std::str::FromStr;
use vstd::prelude::*;
use vstd::string::StringExecFns;

use crate::text::{chars_of, count_fields, parse_digits};
use crate::time::{Timestamp, CALENDAR_LAST_SECS};

verus! {

/// What the `cron` crate says of an expression and a time.
#[derive(Clone, Copy, Debug, PartialEq, Eq, Structural)]
pub enum CronAnswer {
    /// The text is no cron expression.
    Invalid,
    /// The expression names no time after the given one.
    Never,
    /// The first time after the given one.
    At(Timestamp),
}

/// What `cron::Schedule` makes of the expression and the time.
pub uninterp spec fn cron_answer(expr: Seq<char>, after: Timestamp) -> CronAnswer;

/// Reads the expression with `cron::Schedule::from_str` and takes the first item of
/// `cron::Schedule::after`, in UTC. Claimed: the answer depends on the expression and the
/// time alone, and a time that it gives is a whole second and lies in a later second than
/// the given one.
#[verifier::external_body]
fn cron_next(expr: &str, after: Timestamp) -> (r: CronAnswer)
    requires
        after.on_calendar(),
    ensures
        r == cron_answer(expr@, after),
        r matches CronAnswer::At(t) ==> after.secs < t.secs && t.nanos == 0,
{
    let start = chrono::DateTime::from_timestamp(after.secs, after.nanos).unwrap();
    match cron::Schedule::from_str(expr) {
        Ok(schedule) => match schedule.after(&start).next() {
            Some(t) => CronAnswer::At(
                Timestamp { secs: t.timestamp(), nanos: t.timestamp_subsec_nanos() },
            ),
            None => CronAnswer::Never,
        },
        Err(_) => CronAnswer::Invalid,
    }
}

/// The seconds of the unit that a letter stands for.
pub open spec fn unit_secs(c: char) -> Option<nat> {
    if c == 's' {
        Some(1)
    } else if c == 'm' {
        Some(60)
    } else if c == 'h' {
        Some(3_600)
    } else if c == 'd' {
        Some(86_400)
    } else {
        None
    }
}

/// The interval, in seconds, that a text such as `30s`, `10m`, `2h` or `1d` stands for: a
/// positive number and a unit, no longer than the calendar.
pub open spec fn interval(expr: Seq<char>) -> Option<nat> {
    if expr.len() < 2 {
        None
    } else {
        match unit_secs(expr.last()) {
            None => None,
            Some(unit) => {
                let n = crate::text::digits_value(expr.drop_last());
                if crate::text::all_digits(expr.drop_last()) && 0 < n * unit
                    <= CALENDAR_LAST_SECS {
                    Some(n * unit)
                } else {
                    None
                }
            },
        }
    }
}

/// Reads an interval.
pub fn interval_secs(expr: &str) -> (r: Option<u64>)
    ensures
        match r {
            Some(n) => interval(expr@) == Some(n as nat),
            None => interval(expr@) is None,
        },
{
    let chars = chars_of(expr);
    if chars.len() < 2 {
        return None;
    }
    let last: usize = chars.len() - 1;
    let unit: u64 = match chars[last] {
        's' => 1,
        'm' => 60,
        'h' => 3_600,
        'd' => 86_400,
        _ => {
            return None;
        },
    };
    let ghost front = expr@.drop_last();
    assert(chars@.take(last as int) =~= front);
    match parse_digits(&chars, last) {
        None => {
            proof {
                let n = crate::text::digits_value(front);
                assert(n > u64::MAX ==> n * unit > CALENDAR_LAST_SECS) by (nonlinear_arith)
                    requires
                        unit >= 1,
                ;
            }
            None
        },
        Some(n) => {
            match n.checked_mul(unit) {
                None => None,
                Some(total) => if 0 < total && total <= CALENDAR_LAST_SECS as u64 {
                    Some(total)
                } else {
                    None
                },
            }
        },
    }
}

/// The next run, given what the `cron` crate says of the expression as it stands and, for
/// an expression of five fields, of the expression with a field for the seconds before it.
pub open spec fn resolved_run(
    direct: CronAnswer,
    expr: Seq<char>,
    padded: CronAnswer,
    now: Timestamp,
) -> Option<Timestamp> {
    match direct {
        CronAnswer::At(t) => Some(t),
        CronAnswer::Never => None,
        CronAnswer::Invalid => match interval(expr) {
            Some(n) => if now.secs + n <= CALENDAR_LAST_SECS {
                Some(now.plus_secs(n as int))
            } else {
                None
            },
            None => match padded {
                CronAnswer::At(t) if crate::text::field_count(expr, 0) == 5 => Some(t),
                _ => None,
            },
        },
    }
}

/// Decides the next run from the answers of the `cron` crate.
pub fn resolve_run(direct: CronAnswer, expr: &str, padded: CronAnswer, now: Timestamp) -> (r:
    Option<Timestamp>)
    requires
        now.on_calendar(),
    ensures
        r == resolved_run(direct, expr@, padded, now),
{
    match direct {
        CronAnswer::At(t) => Some(t),
        CronAnswer::Never => None,
        CronAnswer::Invalid => match interval_secs(expr) {
            Some(n) => {
                if n <= (CALENDAR_LAST_SECS - now.secs) as u64 {
                    let r = Timestamp { secs: now.secs + n as i64, nanos: now.nanos };
                    assert(r == now.plus_secs(n as int));
                    Some(r)
                } else {
                    None
                }
            },
            None => match padded {
                CronAnswer::At(t) => {
                    let chars = chars_of(expr);
                    if count_fields(&chars) == 5 {
                        Some(t)
                    } else {
                        None
                    }
                },
                _ => None,
            },
        },
    }
}

/// The next run of a recurring job after `now`. The expression has six or seven fields
/// with the seconds first, or five fields without the seconds, or is an interval.
pub open spec fn next_run_at(expr: Seq<char>, now: Timestamp) -> Option<Timestamp> {
    resolved_run(cron_answer(expr, now), expr, cron_answer("0 "@ + expr, now), now)
}

/// Finds the next run of a recurring job after `now`.
pub fn next_run(expr: &str, now: Timestamp) -> (r: Option<Timestamp>)
    requires
        now.on_calendar(),
    ensures
        r == next_run_at(expr@, now),
        r matches Some(t) ==> now.before(t),
{
    let direct = cron_next(expr, now);
    let mut padded_expr: String = "0 ".to_string();
    padded_expr.append(expr);
    let padded = cron_next(padded_expr.as_str(), now);
    resolve_run(direct, expr, padded, now)
}

/// An interval is a positive number with the letter of its unit: seconds, minutes, hours or days.
pub proof fn law_interval_is_a_number_of_units(number: Seq<char>, c: char)
    requires
        number.len() > 0,
        forall|i: int| 0 <= i < number.len() ==> '0' <= #[trigger] number[i] <= '9',
    ensures
        ({
            let n = crate::text::digits_value(number);
            let secs: nat = if c == 's' {
                n
            } else if c == 'm' {
                n * 60
            } else if c == 'h' {
                n * 3_600
            } else if c == 'd' {
                n * 86_400
            } else {
                0
            };
            interval(number.push(c)) == if 0 < secs <= 8_210_266_876_799 {
                Some(secs)
            } else {
                None
            }
        }),
{
    let n = crate::text::digits_value(number);
    assert(forall|unit: nat| unit == 1 ==> #[trigger] (n * unit) == n) by (nonlinear_arith);
    assert(number.push(c).drop_last() =~= number);
}

/// What does not end in the letter of a unit, or has anything but digits before it, is no
/// interval.
pub proof fn law_other_texts_are_no_interval(expr: Seq<char>, i: int)
    ensures
        expr.len() < 2 ==> interval(expr) is None,
        expr.len() > 0 && expr.last() != 's' && expr.last() != 'm' && expr.last() != 'h'
            && expr.last() != 'd' ==> interval(expr) is None,
        0 <= i < expr.len() - 1 && !('0' <= expr[i] <= '9') ==> interval(expr) is None,
{
    if 0 <= i < expr.len() - 1 {
        assert(expr.drop_last()[i] == expr[i]);
    }
}

/// A recurring job runs next when `cron` says for its expression as it stands; where that is no
/// expression, an interval leads as many seconds on as it says; where it is none either but has
/// five fields, it runs when `cron` says for it with a field for the seconds before it.
pub proof fn law_next_run_follows_the_expression(expr: Seq<char>, now: Timestamp, t: Timestamp)
    requires
        now.on_calendar(),
    ensures
        cron_answer(expr, now) == CronAnswer::At(t) ==> next_run_at(expr, now) == Some(t),
        cron_answer(expr, now) == CronAnswer::Never ==> next_run_at(expr, now) is None,
        cron_answer(expr, now) == CronAnswer::Invalid ==> {
            &&& interval(expr) matches Some(n) ==> if now.secs + n <= CALENDAR_LAST_SECS {
                &&& next_run_at(expr, now) is Some
                &&& next_run_at(expr, now)->0.secs == now.secs + n
                &&& next_run_at(expr, now)->0.nanos == now.nanos
            } else {
                next_run_at(expr, now) is None
            }
            &&& interval(expr) is None && crate::text::field_count(expr, 0) == 5 && cron_answer(
                "0 "@ + expr,
                now,
            ) == CronAnswer::At(t) ==> next_run_at(expr, now) == Some(t)
            &&& interval(expr) is None && (crate::text::field_count(expr, 0) != 5 || cron_answer(
                "0 "@ + expr,
                now,
            ) !is At) ==> next_run_at(expr, now) is None
        },
{
}

} // verus!
