//! The cron engine: turns a cron expression into the next absolute firing
//! instant and decides whether a task is currently due.
//!
//! Expressions come in 5-field form (minute hour day-of-month month
//! day-of-week), 6-field form (the same with a trailing year) or 7-field
//! form (seconds first, year last).  The shorter forms are normalized by
//! defaulting seconds to `0` and, for 5 fields, the year to every year;
//! the normalized expression is then handed to the `cron` crate.  A
//! malformed expression never panics: it simply yields no next instant.

use vstd::prelude::*;

use crate::model::ScheduledTask;
use crate::model::TaskV;
use crate::text::is_space;
use crate::text::char_is_space;

verus! {

/// The number of whitespace-separated fields in `s` from position `i` on,
/// where `in_field` says whether position `i` continues a field already
/// begun.
pub open spec fn field_count_from(s: Seq<char>, i: nat, in_field: bool) -> nat
    decreases s.len() - i,
{
    if i >= s.len() {
        0
    } else {
        let starts = !is_space(s[i as int]) && !in_field;
        (if starts {
            1nat
        } else {
            0nat
        }) + field_count_from(s, i + 1, !is_space(s[i as int]))
    }
}

/// The number of whitespace-separated fields in `s`.
pub open spec fn field_count(s: Seq<char>) -> nat {
    field_count_from(s, 0, false)
}

/// Counts the whitespace-separated fields of a string.
pub fn count_fields(s: &str) -> (r: usize)
    ensures
        r == field_count(s@),
{
    let n = s.unicode_len();
    let mut i: usize = 0;
    let mut in_field: bool = false;
    let mut count: usize = 0;
    while i < n
        invariant
            i <= n,
            n == s@.len(),
            count <= i,
            count + field_count_from(s@, i as nat, in_field) == field_count(s@),
        decreases n - i,
    {
        let c = s.get_char(i);
        if !char_is_space(c) && !in_field {
            count = count + 1;
        }
        in_field = !char_is_space(c);
        i = i + 1;
    }
    count
}

/// What the result of the `cron` crate's next-occurrence search is, as a
/// function of the normalized expression and the instant searched from.
pub uninterp spec fn cron_next_from(expr: Seq<char>, now: u64) -> Option<u64>;

/// Relies on `cron::Schedule::from_str` and `Schedule::after`: parsing the
/// expression and asking for the first occurrence after the given instant
/// depend on those two values alone, and the occurrence returned is
/// strictly later than the instant searched from — the crate's search
/// begins one second past it, and every occurrence it can yield lies in
/// the years 1970 through 2100, so the conversion back to seconds never
/// wraps.  The search adds that one second to the base unchecked, so an
/// instant is searched from only when its successor is also representable
/// in the time type; anything beyond yields nothing.
#[verifier::external_body]
fn cron_next_after(expr: &str, now: u64) -> (r: Option<u64>)
    ensures
        r == cron_next_from(expr@, now),
        r is Some ==> r.unwrap() > now,
{
    let schedule = <cron::Schedule as core::str::FromStr>::from_str(expr).ok()?;
    let secs = i64::try_from(now).ok()?;
    chrono::DateTime::<chrono::Utc>::from_timestamp(secs.checked_add(1)?, 0)?;
    let base = chrono::DateTime::<chrono::Utc>::from_timestamp(secs, 0)?;
    Some(schedule.after(&base).next()?.timestamp() as u64)
}

/// The expression padded to 7-field form: seconds default to `0`, the year
/// to every year.  Expressions with another field count are rejected.
pub open spec fn spec_normalized_cron(s: Seq<char>) -> Option<Seq<char>> {
    if field_count(s) == 5 {
        Option::Some(seq!['0', ' '] + s + seq![' ', '*'])
    } else if field_count(s) == 6 {
        Option::Some(seq!['0', ' '] + s)
    } else if field_count(s) == 7 {
        Option::Some(s)
    } else {
        Option::None
    }
}

/// Pads an expression to 7-field form as [`spec_normalized_cron`] says.
pub fn normalized_cron(cron_expr: &str) -> (r: Option<String>)
    ensures
        r.deep_view() == spec_normalized_cron(cron_expr@),
{
    let fields = count_fields(cron_expr);
    proof {
        reveal_strlit("0 ");
        reveal_strlit(" *");
        assert(("0 ")@ =~= seq!['0', ' ']);
        assert((" *")@ =~= seq![' ', '*']);
    }
    if fields == 5 {
        let mut out = String::from_str("0 ");
        out.append(cron_expr);
        out.append(" *");
        Option::Some(out)
    } else if fields == 6 {
        let mut out = String::from_str("0 ");
        out.append(cron_expr);
        Option::Some(out)
    } else if fields == 7 {
        Option::Some(cron_expr.to_owned())
    } else {
        Option::None
    }
}

/// The next firing instant of a cron expression strictly after `now`, or
/// nothing when the expression is not in 5/6/7-field form, does not parse,
/// or has no later occurrence.
pub open spec fn spec_next_run_time(s: Seq<char>, now: u64) -> Option<u64> {
    match spec_normalized_cron(s) {
        Option::Some(full) => cron_next_from(full, now),
        Option::None => Option::None,
    }
}

/// Computes the next firing instant of a cron expression after `now`.
/// Any instant returned lies strictly in the future of `now`.
pub fn next_run_time(cron_expr: &str, now: u64) -> (r: Option<u64>)
    ensures
        r == spec_next_run_time(cron_expr@, now),
        r is Some ==> r.unwrap() > now,
{
    match normalized_cron(cron_expr) {
        Option::Some(full) => cron_next_after(full.as_str(), now),
        Option::None => Option::None,
    }
}

/// Whether a task is due at `now`: it must be enabled, have a next firing
/// instant, and that instant must lie at or before `now`.
pub open spec fn spec_is_due(t: TaskV, now: u64) -> bool {
    &&& t.enabled
    &&& t.next_run is Some
    &&& t.next_run.unwrap() <= now
}

/// Decides whether a task is due at `now`.  A disabled task is never due,
/// whatever its recorded next firing instant.
pub fn is_task_due(task: &ScheduledTask, now: u64) -> (r: bool)
    ensures
        r == spec_is_due(task@, now),
        !task.enabled ==> !r,
{
    task.enabled && match task.next_run {
        Option::Some(t) => t <= now,
        Option::None => false,
    }
}

} // verus!
