//! Pod columns and ages for tables of objects.
use crate::number::{
    decimal, decimal_int, digit, digit_run, digit_run_of_digits, parse_digits, positional, positional_is_bounded,
    positional_is_digits, write_i64, write_u64, written_reads_back,
};
use crate::text::same;
use crate::value::{
    array_of, at, bool_of, boolean_of, filled, get_at, i64_of, inner, int_of, is_text, items_of, no_text, non_empty, opt, or_int,
    or_none, or_text, str_of, text_of, text_or, u64_of, unsigned_of, Json, JsonView,
};
use vstd::prelude::*;
use vstd::string::*;

verus! {

/// Whether a year of the Gregorian calendar has a 29th of February.
pub open spec fn leap(y: int) -> bool {
    y % 4 == 0 && (y % 100 != 0 || y % 400 == 0)
}

/// The days from the start of year 0 to the start of year `y`, negative before it.
pub open spec fn days_before_year(y: int) -> int {
    365 * y + (y + 3) / 4 - (y + 99) / 100 + (y + 399) / 400
}

/// The days of a year that precede its month `m`.
pub open spec fn days_before_month(y: int, m: int) -> int {
    let feb: int = if leap(y) { 29 } else { 28 };
    if m <= 1 { 0 } else if m == 2 { 31 } else if m == 3 { 31 + feb } else if m == 4 { 62 + feb }
    else if m == 5 { 92 + feb } else if m == 6 { 123 + feb } else if m == 7 { 153 + feb }
    else if m == 8 { 184 + feb } else if m == 9 { 215 + feb } else if m == 10 { 245 + feb }
    else if m == 11 { 276 + feb } else { 306 + feb }
}

/// The days from 1 January 1970 to a date of the proleptic Gregorian calendar.
pub open spec fn epoch_days(y: int, m: int, d: int) -> int {
    days_before_year(y) - days_before_year(1970) + days_before_month(y, m) + d - 1
}

pub open spec fn fits(n: int) -> bool {
    i64::MIN <= n <= i64::MAX
}

/// Whole multiples of the divisor leave a quotient unchanged but for their number.
proof fn quotient_shift(k: int, a: int, n: int)
    requires
        n == 4 || n == 100 || n == 400,
    ensures
        (n * k + a) / n == k + a / n,
        (n * k + a) % n == a % n,
{
    if n == 4 {
        assert((4 * k + a) / 4 == k + a / 4);
        assert((4 * k + a) % 4 == a % 4);
    } else if n == 100 {
        assert((100 * k + a) / 100 == k + a / 100);
        assert((100 * k + a) % 100 == a % 100);
    } else {
        assert((400 * k + a) / 400 == k + a / 400);
        assert((400 * k + a) % 400 == a % 400);
    }
}

/// A year's days counted from the start of its span of four hundred years.
proof fn days_before_year_in_era(e: int, r: int)
    ensures
        days_before_year(400 * e + r) == 146097 * e + 365 * r + (r + 3) / 4 - (r + 99) / 100 + (r + 399) / 400,
{
    quotient_shift(100 * e, r + 3, 4);
    quotient_shift(4 * e, r + 99, 100);
    quotient_shift(e, r + 399, 400);
}

/// The days of the months from March on, by the linear rule of the calendar.
proof fn month_rule(y: int, m: int)
    requires
        1 <= m <= 12,
    ensures
        ({
            let mp = if m > 2 { m - 3 } else { m + 9 };
            let feb: int = if leap(y) { 29 } else { 28 };
            (153 * mp + 2) / 5 == if m > 2 { days_before_month(y, m) - 31 - feb } else { days_before_month(y, m) + 306 }
        }),
{
}

/// The count that starts each year in March agrees with the calendar's months.
proof fn march_count(e: int, r: int, m: int, d: int)
    requires
        0 <= r < 400,
        1 <= m <= 12,
    ensures
        ({
            let y = if m <= 2 { 400 * e + r + 1 } else { 400 * e + r };
            let mp = if m > 2 { m - 3 } else { m + 9 };
            e * 146097 + (r * 365 + r / 4 - r / 100 + ((153 * mp + 2) / 5 + d - 1)) - 719468 == epoch_days(y, m, d)
        }),
{
    let y = if m <= 2 { 400 * e + r + 1 } else { 400 * e + r };
    assert(days_before_year(1970) == 719528);
    month_rule(y, m);
    if m > 2 {
        days_before_year_in_era(e, r);
        quotient_shift(100 * e, r, 4);
        quotient_shift(4 * e, r, 100);
        quotient_shift(e, r, 400);
        assert(leap(y) == (r % 4 == 0 && (r % 100 != 0 || r == 0)));
        assert((r + 3) / 4 == r / 4 + if r % 4 == 0 { 0int } else { 1int });
        assert((r + 99) / 100 == r / 100 + if r % 100 == 0 { 0int } else { 1int });
        assert((r + 399) / 400 == if r == 0 { 0int } else { 1int });
        assert(r % 100 == 0 ==> r % 4 == 0);
    } else {
        days_before_year_in_era(e, r + 1);
        assert((r + 1 + 3) / 4 == r / 4 + 1);
        assert((r + 1 + 99) / 100 == r / 100 + 1);
        assert((r + 1 + 399) / 400 == 1);
    }
}

/// The days from 1 January 1970 to a date of the proleptic Gregorian calendar.
pub fn days_from_civil(y: i64, m: i64, d: i64) -> (r: i64)
    requires
        1 <= m <= 12,
        fits(epoch_days(y as int, m as int, d as int)),
    ensures
        r == epoch_days(y as int, m as int, d as int),
{
    civil_days(y, m, d) as i64
}

fn civil_days(y: i64, m: i64, d: i64) -> (r: i128)
    requires
        1 <= m <= 12,
    ensures
        r == epoch_days(y as int, m as int, d as int),
        -10_000_000_000_000_000_000_000 <= r <= 10_000_000_000_000_000_000_000,
{
    let y1: i128 = if m <= 2 { y as i128 - 1 } else { y as i128 };
    let era: i128 = if y1 >= 0 { y1 / 400 } else { -((399 - y1) / 400) };
    let yoe: i128 = y1 - era * 400;
    let mp: i128 = if m > 2 { m as i128 - 3 } else { m as i128 + 9 };
    let doy: i128 = (153 * mp + 2) / 5 + d as i128 - 1;
    let doe: i128 = yoe * 365 + yoe / 4 - yoe / 100 + doy;
    proof {
        march_count(era as int, yoe as int, m as int, d as int);
    }
    era * 146097 + doe - 719468
}

/// What stands behind the seconds of a timestamp: `Z`, or a fraction and `Z`.
pub open spec fn utc_tail(t: Seq<char>) -> bool {
    &&& t.len() > 0
    &&& t.last() == 'Z'
    &&& t.len() == 1 || (t.len() > 2 && t[0] == '.' && forall|i: int| 0 < i < t.len() - 1 ==> '0' <= #[trigger] t[i] <= '9')
}

/// Whether each mark of `YYYY-MM-DDTHH:MM:SS[.fff]Z` stands in its place.
pub open spec fn stamp_shaped(s: Seq<char>) -> bool {
    &&& s.len() >= 20
    &&& s[4] == '-' && s[7] == '-' && s[10] == 'T' && s[13] == ':' && s[16] == ':'
    &&& utc_tail(s.skip(19))
}

/// The second, counted from the start of 1970, that `YYYY-MM-DDTHH:MM:SS[.fff]Z` names, each
/// letter but `T` and `Z` a digit. The fraction is dropped; any other shape names none.
pub open spec fn instant(s: Seq<char>) -> Option<int> {
    if !stamp_shaped(s) {
        None
    } else {
        match (
            positional(s.subrange(0, 4), 10),
            positional(s.subrange(5, 7), 10),
            positional(s.subrange(8, 10), 10),
            positional(s.subrange(11, 13), 10),
            positional(s.subrange(14, 16), 10),
            positional(s.subrange(17, 19), 10),
        ) {
            (Some(year), Some(month), Some(day), Some(hour), Some(minute), Some(second)) => if 1 <= month <= 12 && 1
                <= day <= 31 {
                Some(epoch_days(year as int, month as int, day as int) * 86400 + hour * 3600 + minute * 60 + second)
            } else {
                None
            },
            _ => None,
        }
    }
}

pub fn has_utc_tail(s: &str) -> (r: bool)
    ensures
        r == utc_tail(s@),
{
    let n = s.unicode_len();
    if n == 0 || s.get_char(n - 1) != 'Z' {
        return false;
    }
    if n == 1 {
        return true;
    }
    if n == 2 || s.get_char(0) != '.' {
        return false;
    }
    let mut i: usize = 1;
    while i < n - 1
        invariant
            1 <= i <= n - 1,
            n == s@.len(),
            forall|k: int| 0 < k < i ==> '0' <= #[trigger] s@[k] <= '9',
        decreases n - i,
    {
        let c = s.get_char(i);
        if !('0' <= c && c <= '9') {
            return false;
        }
        i += 1;
    }
    true
}

/// Whether each mark of `YYYY-MM-DDTHH:MM:SS[.fff]Z` stands in its place.
pub fn has_stamp_shape(s: &str) -> (r: bool)
    ensures
        r == stamp_shaped(s@),
{
    let n = s.unicode_len();
    if n < 20 {
        return false;
    }
    let tail = s.substring_char(19, n);
    assert(tail@ =~= s@.skip(19));
    s.get_char(4) == '-' && s.get_char(7) == '-' && s.get_char(10) == 'T' && s.get_char(13) == ':' && s.get_char(16)
        == ':' && has_utc_tail(tail)
}

/// The number that at most four digits write.
fn read_digits(s: &str) -> (r: Option<i64>)
    requires
        0 < s@.len() <= 4,
    ensures
        match r {
            Some(v) => positional(s@, 10) == Some(v as nat) && 0 <= v < 10000,
            None => positional(s@, 10) is None,
        },
{
    proof {
        positional_is_bounded(s@);
    }
    match parse_digits(s, 10, 9999) {
        Some(v) => Some(v as i64),
        None => None,
    }
}

/// The second, counted from the start of 1970, that `YYYY-MM-DDTHH:MM:SS[.fff]Z` names.
pub fn parse_rfc3339_utc(s: &str) -> (r: Option<i64>)
    ensures
        match r {
            Some(n) => instant(s@) == Some(n as int),
            None => instant(s@) is None,
        },
{
    if !has_stamp_shape(s) {
        return None;
    }
    let year = read_digits(s.substring_char(0, 4));
    let month = read_digits(s.substring_char(5, 7));
    let day = read_digits(s.substring_char(8, 10));
    let hour = read_digits(s.substring_char(11, 13));
    let minute = read_digits(s.substring_char(14, 16));
    let second = read_digits(s.substring_char(17, 19));
    match (year, month, day, hour, minute, second) {
        (Some(year), Some(month), Some(day), Some(hour), Some(minute), Some(second)) => {
            if month < 1 || month > 12 || day < 1 || day > 31 {
                return None;
            }
            let days: i64 = days_from_civil(year, month, day);
            Some(days * 86400 + hour * 3600 + minute * 60 + second)
        },
        _ => None,
    }
}

/// Two units of a duration, the second left out where it is zero.
pub open spec fn two_units(a: int, a_unit: Seq<char>, b: int, b_unit: Seq<char>) -> Seq<char> {
    if b == 0 {
        decimal(a as nat) + a_unit
    } else {
        decimal(a as nat) + a_unit + decimal(b as nat) + b_unit
    }
}

/// A length of time in seconds in at most two units, the coarser the longer it is.
/// One second before zero counts as zero; anything earlier is invalid.
pub open spec fn human(secs: int) -> Seq<char> {
    let minutes = secs / 60;
    let hours = secs / 3600;
    let days = secs / 86400;
    if secs < -1 {
        "<invalid>"@
    } else if secs < 0 {
        "0s"@
    } else if secs < 120 {
        decimal(secs as nat) + "s"@
    } else if minutes < 10 {
        two_units(minutes, "m"@, secs % 60, "s"@)
    } else if hours < 3 {
        decimal(minutes as nat) + "m"@
    } else if hours < 8 {
        two_units(hours, "h"@, minutes % 60, "m"@)
    } else if hours < 48 {
        decimal(hours as nat) + "h"@
    } else if days < 8 {
        two_units(days, "d"@, hours % 24, "h"@)
    } else if days < 2 * 365 {
        decimal(days as nat) + "d"@
    } else if days < 8 * 365 {
        two_units(days / 365, "y"@, days % 365, "d"@)
    } else {
        decimal((days / 365) as nat) + "y"@
    }
}

fn write_unit(n: i64, unit: &str) -> (r: String)
    requires
        n >= 0,
    ensures
        r@ == decimal(n as nat) + unit@,
{
    let mut out = write_u64(n as u64);
    out.append(unit);
    out
}

fn write_two_units(a: i64, a_unit: &str, b: i64, b_unit: &str) -> (r: String)
    requires
        a >= 0,
        b >= 0,
    ensures
        r@ == two_units(a as int, a_unit@, b as int, b_unit@),
{
    let mut out = write_unit(a, a_unit);
    if b != 0 {
        out.append(write_u64(b as u64).as_str());
        out.append(b_unit);
    }
    out
}

/// A length of time in seconds in at most two units, the coarser the longer it is.
pub fn human_duration(secs: i64) -> (r: String)
    ensures
        r@ == human(secs as int),
{
    if secs < -1 {
        return "<invalid>".to_owned();
    }
    if secs < 0 {
        return "0s".to_owned();
    }
    if secs < 60 * 2 {
        return write_unit(secs, "s");
    }
    let minutes: i64 = secs / 60;
    if minutes < 10 {
        return write_two_units(minutes, "m", secs % 60, "s");
    }
    if minutes < 60 * 3 {
        return write_unit(minutes, "m");
    }
    let hours: i64 = secs / 3600;
    if hours < 8 {
        return write_two_units(hours, "h", (secs / 60) % 60, "m");
    }
    if hours < 48 {
        return write_unit(hours, "h");
    }
    let days: i64 = hours / 24;
    assert(days == secs as int / 86400);
    if hours < 24 * 8 {
        return write_two_units(days, "d", hours % 24, "h");
    }
    if hours < 24 * 365 * 2 {
        return write_unit(days, "d");
    }
    if hours < 24 * 365 * 8 {
        return write_two_units(days / 365, "y", days % 365, "d");
    }
    write_unit(days / 365, "y")
}

/// The age at `now` of what was created at the given time; `-` where the time is missing or
/// has another shape.
pub open spec fn age(creation: Option<Seq<char>>, now: int) -> Seq<char> {
    match creation {
        Some(s) => match instant(s) {
            Some(ts) => human(now - ts),
            None => "-"@,
        },
        None => "-"@,
    }
}

/// Whether the age at `now` is within the range of `i64`.
pub open spec fn age_fits(creation: Option<Seq<char>>, now: int) -> bool {
    creation is Some && instant(creation->0) is Some ==> fits(now - instant(creation->0)->0)
}

/// Whether the age at `now_unix` is within the range of `i64`.
pub fn age_in_range(creation: Option<&str>, now_unix: i64) -> (r: bool)
    ensures
        r == age_fits(opt(creation), now_unix as int),
{
    match creation {
        Some(s) => match parse_rfc3339_utc(s) {
            Some(n) => {
                let elapsed: i128 = now_unix as i128 - n as i128;
                i64::MIN as i128 <= elapsed && elapsed <= i64::MAX as i128
            },
            None => true,
        },
        None => true,
    }
}

/// The age at `now_unix` of what was created at the given time.
pub fn translate_timestamp(creation: Option<&str>, now_unix: i64) -> (r: String)
    requires
        age_fits(opt(creation), now_unix as int),
    ensures
        r@ == age(opt(creation), now_unix as int),
{
    let ts: i64 = match creation {
        Some(s) => match parse_rfc3339_utc(s) {
            Some(ts) => ts,
            None => {
                return "-".to_owned();
            },
        },
        None => {
            return "-".to_owned();
        },
    };
    human_duration(now_unix - ts)
}

/// The container statuses that a pod lists under `key`.
pub open spec fn statuses(pod: JsonView, key: Seq<char>) -> Option<Seq<JsonView>> {
    items_of(at(pod.get("status"@), key))
}

fn container_statuses<'a>(pod: &'a Json, key: &str) -> (r: Option<&'a Vec<Json>>)
    ensures
        match r {
            Some(v) => statuses(pod@, key@) == Some(v.deep_view()),
            None => statuses(pod@, key@) is None,
        },
{
    array_of(get_at(pod.get("status"), key))
}

/// How often the listed containers restarted in all.
pub open spec fn restart_total(items: Seq<JsonView>) -> int
    decreases items.len(),
{
    if items.len() == 0 {
        0
    } else {
        restart_total(items.drop_last()) + or_int(u64_of(items.last().get("restartCount"@)), 0)
    }
}

proof fn restart_total_grows(items: Seq<JsonView>, k: int)
    requires
        0 <= k <= items.len(),
    ensures
        0 <= restart_total(items.take(k)) <= restart_total(items),
    decreases items.len(),
{
    if items.len() > 0 {
        let init = items.drop_last();
        let j = if k < items.len() { k } else { k - 1 };
        restart_total_grows(init, j);
        assert(init.take(j) =~= items.take(j));
    }
    if k == items.len() {
        assert(items.take(k) =~= items);
    }
}

fn sum_restarts(items: &Vec<Json>) -> (r: u64)
    requires
        restart_total(items.deep_view()) <= u64::MAX,
    ensures
        r == restart_total(items.deep_view()),
{
    let ghost all = items.deep_view();
    let mut total: u64 = 0;
    for i in 0..items.len()
        invariant
            all == items.deep_view(),
            restart_total(all) <= u64::MAX,
            total == restart_total(all.take(i as int)),
    {
        proof {
            assert(all.take(i + 1).drop_last() =~= all.take(i as int));
            assert(all.take(i + 1).last() == items@[i as int]@);
            restart_total_grows(all, i + 1);
        }
        let count: u64 = match unsigned_of(items[i].get("restartCount")) {
            Some(n) => n,
            None => 0,
        };
        total = total + count;
    }
    assert(all.take(all.len() as int) =~= all);
    total
}

/// The reason why a container waits, where it does and one is given.
pub open spec fn waiting(state: Option<JsonView>) -> Option<Seq<char>> {
    filled(text_of(at(at(state, "waiting"@), "reason"@)))
}

fn waiting_reason<'a>(state: Option<&'a Json>) -> (r: Option<&'a str>)
    ensures
        opt(r) == waiting(opt(state)),
{
    non_empty(str_of(get_at(get_at(state, "waiting"), "reason")))
}

/// Why a terminated container ended: the reason given, else its signal, else its exit code.
pub open spec fn end_of(term: JsonView) -> Seq<char> {
    match filled(text_of(term.get("reason"@))) {
        Some(r) => r,
        None => if or_int(i64_of(term.get("signal"@)), 0) != 0 {
            "Signal:"@ + decimal_int(i64_of(term.get("signal"@))->0)
        } else {
            "ExitCode:"@ + decimal_int(or_int(i64_of(term.get("exitCode"@)), 0))
        },
    }
}

fn end_reason(term: &Json) -> (r: String)
    ensures
        r@ == end_of(term@),
{
    if let Some(r) = non_empty(str_of(term.get("reason"))) {
        return r.to_owned();
    }
    let signal: i64 = match int_of(term.get("signal")) {
        Some(n) => n,
        None => 0,
    };
    if signal != 0 {
        let mut out = "Signal:".to_owned();
        out.append(write_i64(signal).as_str());
        out
    } else {
        let code: i64 = match int_of(term.get("exitCode")) {
            Some(n) => n,
            None => 0,
        };
        let mut out = "ExitCode:".to_owned();
        out.append(write_i64(code).as_str());
        out
    }
}

/// Why a container is not running, where its status says so.
pub open spec fn stopped(cs: JsonView) -> Option<Seq<char>> {
    let state = cs.get("state"@);
    match waiting(state) {
        Some(r) => Some(r),
        None => match at(state, "terminated"@) {
            Some(term) => Some(end_of(term)),
            None => None,
        },
    }
}

fn stopped_reason(cs: &Json) -> (r: Option<String>)
    ensures
        opt(r) == stopped(cs@),
{
    let state = cs.get("state");
    if let Some(r) = waiting_reason(state) {
        return Some(r.to_owned());
    }
    match get_at(state, "terminated") {
        Some(term) => Some(end_reason(term)),
        None => None,
    }
}

/// The first reason, in the order of the list, why one of the containers is not running.
pub open spec fn first_stopped(items: Seq<JsonView>) -> Option<Seq<char>>
    decreases items.len(),
{
    if items.len() == 0 {
        None
    } else {
        match first_stopped(items.drop_last()) {
            Some(r) => Some(r),
            None => stopped(items.last()),
        }
    }
}

/// Whether a container is ready and running, with no reason given why it should not be.
pub open spec fn runs_ready(cs: JsonView) -> bool {
    stopped(cs) is None && bool_of(cs.get("ready"@)) == Some(true) && at(cs.get("state"@), "running"@) is Some
}

/// Whether an initialising container has ended well.
pub open spec fn init_done(cs: JsonView) -> bool {
    match at(cs.get("state"@), "terminated"@) {
        Some(term) => i64_of(term.get("exitCode"@)) == Some(0int),
        None => false,
    }
}

/// How many containers at the head of the list have ended well.
pub open spec fn init_progress(items: Seq<JsonView>) -> int
    decreases items.len(),
{
    if items.len() > 0 && init_done(items[0]) {
        1 + init_progress(items.drop_first())
    } else {
        0
    }
}

/// What is said of the first initialising container that has not ended well: why it failed,
/// why it waits, or how far the pod has come.
pub open spec fn init_step(cs: JsonView, index: int, total: int) -> Seq<char> {
    let state = cs.get("state"@);
    match at(state, "terminated"@) {
        Some(term) => "Init:"@ + end_of(term),
        None => match waiting(state) {
            Some(r) if r != "PodInitializing"@ => "Init:"@ + r,
            _ => "Init:"@ + decimal(index as nat) + "/"@ + decimal(total as nat),
        },
    }
}

/// The status of a pod that is not done initialising.
pub open spec fn initialising(pod: JsonView) -> Option<Seq<char>> {
    match statuses(pod, "initContainerStatuses"@) {
        None => None,
        Some(items) => {
            let done = init_progress(items);
            let total = match items_of(at(pod.get("spec"@), "initContainers"@)) {
                Some(planned) => planned.len(),
                None => items.len(),
            };
            if done >= items.len() {
                None
            } else {
                Some(init_step(items[done], done, total as int))
            }
        },
    }
}

fn is_init_done(cs: &Json) -> (r: bool)
    ensures
        r == init_done(cs@),
{
    match get_at(cs.get("state"), "terminated") {
        Some(term) => match int_of(term.get("exitCode")) {
            Some(code) => code == 0,
            None => false,
        },
        None => false,
    }
}

fn init_reason(pod: &Json) -> (r: Option<String>)
    ensures
        opt(r) == initialising(pod@),
{
    let items = match container_statuses(pod, "initContainerStatuses") {
        Some(items) => items,
        None => {
            return None;
        },
    };
    let total: usize = match array_of(get_at(pod.get("spec"), "initContainers")) {
        Some(planned) => planned.len(),
        None => items.len(),
    };
    let ghost all = items.deep_view();
    let mut i: usize = 0;
    assert(all.skip(0) =~= all);
    while i < items.len() && is_init_done(&items[i])
        invariant
            all == items.deep_view(),
            i <= items@.len(),
            init_progress(all) == i + init_progress(all.skip(i as int)),
        decreases items@.len() - i,
    {
        assert(all.skip(i as int)[0] == items@[i as int]@);
        assert(all.skip(i as int).drop_first() =~= all.skip(i + 1));
        i += 1;
    }
    assert(i < items@.len() ==> all.skip(i as int)[0] == items@[i as int]@);
    if i == items.len() {
        return None;
    }
    let mut out = "Init:".to_owned();
    let state = items[i].get("state");
    if let Some(term) = get_at(state, "terminated") {
        out.append(end_reason(term).as_str());
        return Some(out);
    }
    if let Some(r) = waiting_reason(state) {
        if !same(r, "PodInitializing") {
            out.append(r);
            return Some(out);
        }
    }
    out.append(write_u64(i as u64).as_str());
    out.append("/");
    out.append(write_u64(total as u64).as_str());
    Some(out)
}

/// How often the containers restarted that the RESTARTS column speaks of: the initialising
/// ones while the pod initialises, else the others.
pub open spec fn restarts(pod: JsonView) -> int {
    if initialising(pod) is Some {
        restart_total(or_none(statuses(pod, "initContainerStatuses"@)))
    } else {
        restart_total(or_none(statuses(pod, "containerStatuses"@)))
    }
}

/// How often a pod's containers restarted; those that initialise it while it initialises.
pub fn pod_restarts(pod: &Json) -> (r: u64)
    requires
        restarts(pod@) <= u64::MAX,
    ensures
        r == restarts(pod@),
{
    let key = if init_reason(pod).is_some() {
        "initContainerStatuses"
    } else {
        "containerStatuses"
    };
    match container_statuses(pod, key) {
        Some(items) => sum_restarts(items),
        None => 0,
    }
}

/// How many of the listed containers are ready.
pub open spec fn ready_count(items: Seq<JsonView>) -> nat
    decreases items.len(),
{
    if items.len() == 0 {
        0
    } else {
        ready_count(items.drop_last()) + if bool_of(items.last().get("ready"@)) == Some(true) {
            1nat
        } else {
            0nat
        }
    }
}

/// `ready/total` over a pod's containers.
pub open spec fn readiness(pod: JsonView) -> Seq<char> {
    decimal(ready_count(or_none(statuses(pod, "containerStatuses"@)))) + "/"@ + decimal(
        or_none(items_of(at(pod.get("spec"@), "containers"@))).len(),
    )
}

/// `ready/total`: how many of a pod's containers are ready, of how many it is made.
pub fn pod_ready(pod: &Json) -> (r: String)
    ensures
        r@ == readiness(pod@),
{
    let total: usize = match array_of(get_at(pod.get("spec"), "containers")) {
        Some(items) => items.len(),
        None => 0,
    };
    let mut ready: u64 = 0;
    if let Some(items) = container_statuses(pod, "containerStatuses") {
        let ghost all = items.deep_view();
        for i in 0..items.len()
            invariant
                all == items.deep_view(),
                ready == ready_count(all.take(i as int)),
                ready <= i,
        {
            assert(all.take(i + 1).drop_last() =~= all.take(i as int));
            assert(all.take(i + 1).last() == items@[i as int]@);
            let is_ready = match boolean_of(items[i].get("ready")) {
                Some(b) => b,
                None => false,
            };
            if is_ready {
                ready += 1;
            }
        }
        assert(all.take(all.len() as int) =~= all);
    }
    let mut out = write_u64(ready);
    out.append("/");
    out.append(write_u64(total as u64).as_str());
    out
}

/// The node that a pod is placed on, or `-`.
pub open spec fn node(pod: JsonView) -> Seq<char> {
    or_text(filled(text_of(at(pod.get("spec"@), "nodeName"@))), "-"@)
}

/// The node that a pod is placed on, or `-`.
pub fn pod_node(pod: &Json) -> (r: String)
    ensures
        r@ == node(pod@),
{
    text_or(non_empty(str_of(get_at(pod.get("spec"), "nodeName"))), "-").to_owned()
}

/// A pod's address, or `-`.
pub open spec fn address(pod: JsonView) -> Seq<char> {
    or_text(filled(text_of(at(pod.get("status"@), "podIP"@))), "-"@)
}

/// A pod's address, or `-`.
pub fn pod_ip(pod: &Json) -> (r: String)
    ensures
        r@ == address(pod@),
{
    text_or(non_empty(str_of(get_at(pod.get("status"), "podIP"))), "-").to_owned()
}

/// Whether a pod lists a `Ready` condition that is `True`.
pub open spec fn ready_condition(pod: JsonView) -> bool {
    let conditions = or_none(statuses(pod, "conditions"@));
    exists|i: int|
        0 <= i < conditions.len() && text_of(conditions[i].get("type"@)) == Some("Ready"@) && text_of(
            #[trigger] conditions[i].get("status"@),
        ) == Some("True"@)
}

fn pod_ready_condition(pod: &Json) -> (r: bool)
    ensures
        r == ready_condition(pod@),
{
    let conditions = match container_statuses(pod, "conditions") {
        Some(items) => items,
        None => {
            return false;
        },
    };
    let ghost all = conditions.deep_view();
    for i in 0..conditions.len()
        invariant
            all == conditions.deep_view(),
            all == or_none(statuses(pod@, "conditions"@)),
            forall|k: int| 0 <= k < i ==> text_of(all[k].get("type"@)) != Some("Ready"@) || text_of(
                #[trigger] all[k].get("status"@),
            ) != Some("True"@),
    {
        let c = &conditions[i];
        assert(c@ == all[i as int]);
        if is_text(str_of(c.get("type")), "Ready") && is_text(str_of(c.get("status")), "True") {
            return true;
        }
    }
    false
}

/// The status of a pod whose initialisation is over, before its deletion is looked at.
pub open spec fn run_status(pod: JsonView) -> Seq<char> {
    let items = or_none(statuses(pod, "containerStatuses"@));
    let status = pod.get("status"@);
    let phase = or_text(text_of(at(status, "phase"@)), ""@);
    let stated = or_text(filled(text_of(at(status, "reason"@))), phase);
    let reason = or_text(first_stopped(items), stated);
    if reason == "Completed"@ && (exists|i: int| 0 <= i < items.len() && runs_ready(#[trigger] items[i])) {
        if ready_condition(pod) {
            "Running"@
        } else {
            "NotReady"@
        }
    } else {
        reason
    }
}

/// A pod's status: deletion first, then initialisation, then the containers' states, then
/// the reason or phase of the pod; `-` where all of them are silent.
pub open spec fn status_of(pod: JsonView) -> Seq<char> {
    if at(pod.get("metadata"@), "deletionTimestamp"@) is Some {
        if text_of(at(pod.get("status"@), "reason"@)) == Some("NodeLost"@) {
            "Unknown"@
        } else {
            "Terminating"@
        }
    } else {
        let reason = match initialising(pod) {
            Some(r) => r,
            None => run_status(pod),
        };
        if reason.len() == 0 {
            "-"@
        } else {
            reason
        }
    }
}

fn run_reason(pod: &Json) -> (r: String)
    ensures
        r@ == run_status(pod@),
{
    let status = pod.get("status");
    let phase = text_or(str_of(get_at(status, "phase")), "");
    let mut reason = text_or(non_empty(str_of(get_at(status, "reason"))), phase).to_owned();
    let mut has_running = false;
    let ghost items = or_none(statuses(pod@, "containerStatuses"@));
    if let Some(list) = container_statuses(pod, "containerStatuses") {
        let mut found: Option<String> = None;
        for i in 0..list.len()
            invariant
                items == list.deep_view(),
                opt(found) == first_stopped(items.take(i as int)),
                has_running == exists|k: int| 0 <= k < i && runs_ready(#[trigger] items[k]),
        {
            assert(items.take(i + 1).drop_last() =~= items.take(i as int));
            assert(items.take(i + 1).last() == items[i as int]);
            let cs = &list[i];
            assert(cs@ == items[i as int]);
            let ghost ran = has_running;
            match stopped_reason(cs) {
                Some(r) => {
                    if found.is_none() {
                        found = Some(r);
                    }
                },
                None => {
                    let ready = match boolean_of(cs.get("ready")) {
                        Some(b) => b,
                        None => false,
                    };
                    if ready && get_at(cs.get("state"), "running").is_some() {
                        has_running = true;
                    }
                },
            }
            assert(has_running == (ran || runs_ready(items[i as int])));
        }
        assert(items.take(items.len() as int) =~= items);
        if let Some(r) = found {
            reason = r;
        }
    }
    if has_running && same(reason.as_str(), "Completed") {
        if pod_ready_condition(pod) {
            return "Running".to_owned();
        } else {
            return "NotReady".to_owned();
        }
    }
    reason
}

/// A pod's status as one word.
pub fn pod_status(pod: &Json) -> (r: String)
    ensures
        r@ == status_of(pod@),
{
    if get_at(pod.get("metadata"), "deletionTimestamp").is_some() {
        return if is_text(str_of(get_at(pod.get("status"), "reason")), "NodeLost") {
            "Unknown".to_owned()
        } else {
            "Terminating".to_owned()
        };
    }
    let reason = match init_reason(pod) {
        Some(r) => r,
        None => run_reason(pod),
    };
    if reason.as_str().is_empty() {
        "-".to_owned()
    } else {
        reason
    }
}

/// The days of a month.
pub open spec fn month_length(y: int, m: int) -> int {
    if m == 2 {
        if leap(y) { 29 } else { 28 }
    } else if m == 4 || m == 6 || m == 9 || m == 11 {
        30
    } else {
        31
    }
}

/// The count of days starts at 1 January 1970 and goes up by one from each day of the
/// calendar to the next, across the ends of months and years.
pub proof fn days_follow_the_calendar(y: int, m: int, d: int)
    requires
        1 <= m <= 12,
        1 <= d <= month_length(y, m),
    ensures
        epoch_days(1970, 1, 1) == 0,
        d < month_length(y, m) ==> epoch_days(y, m, d + 1) == epoch_days(y, m, d) + 1,
        d == month_length(y, m) && m < 12 ==> epoch_days(y, m + 1, 1) == epoch_days(y, m, d) + 1,
        d == month_length(y, m) && m == 12 ==> epoch_days(y + 1, 1, 1) == epoch_days(y, m, d) + 1,
{
    let r = y % 400;
    let e = y / 400;
    assert(y == 400 * e + r);
    days_before_year_in_era(e, r);
    days_before_year_in_era(e, r + 1);
    quotient_shift(100 * e, r, 4);
    quotient_shift(4 * e, r, 100);
    quotient_shift(e, r, 400);
    assert(r % 100 == 0 ==> r % 4 == 0);
    assert((r + 1 + 3) / 4 == (r + 3) / 4 + if r % 4 == 0 { 1int } else { 0int });
    assert((r + 1 + 99) / 100 == (r + 99) / 100 + if r % 100 == 0 { 1int } else { 0int });
    assert((r + 1 + 399) / 400 == (r + 399) / 400 + if r == 0 { 1int } else { 0int });
}

/// A pod's status is never an empty text, and one that is being deleted is `Terminating`, or
/// `Unknown` where its node was lost, whatever its containers do.
pub proof fn deletion_decides_the_status(pod: JsonView)
    ensures
        status_of(pod).len() > 0,
        at(pod.get("metadata"@), "deletionTimestamp"@) is Some ==> status_of(pod) == if text_of(
            at(pod.get("status"@), "reason"@),
        ) == Some("NodeLost"@) {
            "Unknown"@
        } else {
            "Terminating"@
        },
{
    reveal_strlit("-");
    reveal_strlit("Unknown");
    reveal_strlit("Terminating");
}

/// A fraction of a second does not change the instant that a timestamp names.
pub proof fn fraction_is_dropped(s: Seq<char>, fraction: Seq<char>)
    requires
        s.len() == 20,
        s.last() == 'Z',
        fraction.len() > 0,
        forall|i: int| 0 <= i < fraction.len() ==> '0' <= #[trigger] fraction[i] <= '9',
    ensures
        instant(s.take(19) + seq!['.'] + fraction + seq!['Z']) == instant(s),
{
    let long = s.take(19) + seq!['.'] + fraction + seq!['Z'];
    assert(long.skip(19) =~= seq!['.'] + fraction + seq!['Z']);
    assert forall|i: int| 0 < i < long.skip(19).len() - 1 implies '0' <= #[trigger] long.skip(19)[i] <= '9' by {
        assert(long.skip(19)[i] == fraction[i - 1]);
    }
    assert(utc_tail(long.skip(19)));
    assert(s.skip(19).last() == 'Z');
    assert(utc_tail(s.skip(19)));
    assert(long.subrange(0, 4) =~= s.subrange(0, 4));
    assert(long.subrange(5, 7) =~= s.subrange(5, 7));
    assert(long.subrange(8, 10) =~= s.subrange(8, 10));
    assert(long.subrange(11, 13) =~= s.subrange(11, 13));
    assert(long.subrange(14, 16) =~= s.subrange(14, 16));
    assert(long.subrange(17, 19) =~= s.subrange(17, 19));
}

/// Whether the sum of a pod's restarts is within the range of `u64`.
pub fn restarts_in_range(pod: &Json) -> (r: bool)
    ensures
        r == (restarts(pod@) <= u64::MAX),
{
    let key = if init_reason(pod).is_some() {
        "initContainerStatuses"
    } else {
        "containerStatuses"
    };
    let items = match container_statuses(pod, key) {
        Some(items) => items,
        None => {
            return true;
        },
    };
    let ghost all = items.deep_view();
    let mut total: u64 = 0;
    for i in 0..items.len()
        invariant
            all == items.deep_view(),
            restarts(pod@) == restart_total(all),
            total == restart_total(all.take(i as int)),
    {
        proof {
            assert(all.take(i + 1).drop_last() =~= all.take(i as int));
            assert(all.take(i + 1).last() == items@[i as int]@);
            restart_total_grows(all, i + 1);
        }
        let count: u64 = match unsigned_of(items[i].get("restartCount")) {
            Some(n) => n,
            None => 0,
        };
        match total.checked_add(count) {
            Some(n) => {
                total = n;
            },
            None => {
                return false;
            },
        }
    }
    assert(all.take(all.len() as int) =~= all);
    true
}

/// The seconds of a unit of an age.
pub open spec fn age_unit(c: char) -> int {
    if c == 's' {
        1
    } else if c == 'm' {
        60
    } else if c == 'h' {
        3600
    } else if c == 'd' {
        86400
    } else if c == 'y' {
        31536000
    } else {
        0
    }
}

/// The seconds that an age such as `3h2m` says.
pub open spec fn age_value(s: Seq<char>) -> int
    decreases s.len(),
{
    let n = digit_run(s);
    if 0 <= n < s.len() {
        positional(s.take(n), 10)->0 * age_unit(s[n]) + age_value(s.skip(n + 1))
    } else {
        0
    }
}

proof fn unit_reads_back(n: nat, unit: char, rest: Seq<char>)
    requires
        digit(unit, 10) is None,
    ensures
        age_value(decimal(n) + seq![unit] + rest) == n * age_unit(unit) + age_value(rest),
{
    let digits = decimal(n);
    let s = digits + seq![unit] + rest;
    written_reads_back(n, 10);
    positional_is_digits(digits, 10);
    assert(s =~= digits + (seq![unit] + rest));
    digit_run_of_digits(digits, seq![unit] + rest);
    let k = digits.len() as int;
    assert(s.take(k) =~= digits);
    assert(s[k] == unit);
    assert(s.skip(k + 1) =~= rest);
}

proof fn one_unit(n: nat, unit: char)
    requires
        digit(unit, 10) is None,
    ensures
        age_value(decimal(n) + seq![unit]) == n * age_unit(unit),
{
    unit_reads_back(n, unit, seq![]);
    assert(decimal(n) + seq![unit] + seq![] =~= decimal(n) + seq![unit]);
    assert(age_value(seq![]) == 0);
}

proof fn two_units_read_back(a: int, x: char, b: int, y: char)
    requires
        0 <= a,
        0 <= b,
        digit(x, 10) is None,
        digit(y, 10) is None,
    ensures
        age_value(two_units(a, seq![x], b, seq![y])) == a * age_unit(x) + b * age_unit(y),
{
    one_unit(a as nat, x);
    one_unit(b as nat, y);
    let rest = decimal(b as nat) + seq![y];
    unit_reads_back(a as nat, x, rest);
    assert(decimal(a as nat) + seq![x] + rest =~= decimal(a as nat) + seq![x] + decimal(b as nat) + seq![y]);
    if b == 0 {
        assert(b * age_unit(y) == 0);
    }
}

/// The seconds that an age shows: the time cut down to whole minutes, hours, days or years, the
/// coarser the longer it is.
pub open spec fn shown_seconds(secs: int) -> int {
    if secs < 600 {
        secs
    } else if secs < 28800 {
        secs / 60 * 60
    } else if secs < 691200 {
        secs / 3600 * 3600
    } else if secs < 252288000 {
        secs / 86400 * 86400
    } else {
        secs / 31536000 * 31536000
    }
}

/// An age reads as the seconds that it shows, which are never more than the time.
#[verifier::spinoff_prover]
pub proof fn age_is_cut_down(secs: int)
    requires
        0 <= secs,
    ensures
        age_value(human(secs)) == shown_seconds(secs),
        shown_seconds(secs) <= secs,
{
    reveal_strlit("s");
    reveal_strlit("m");
    reveal_strlit("h");
    reveal_strlit("d");
    reveal_strlit("y");
    assert("s"@ =~= seq!['s']);
    assert("m"@ =~= seq!['m']);
    assert("h"@ =~= seq!['h']);
    assert("d"@ =~= seq!['d']);
    assert("y"@ =~= seq!['y']);
    let minutes = secs / 60;
    let hours = secs / 3600;
    let days = secs / 86400;
    if secs < 120 {
        one_unit(secs as nat, 's');
    } else if secs < 600 {
        two_units_read_back(minutes, 'm', secs % 60, 's');
    } else if secs < 10800 {
        one_unit(minutes as nat, 'm');
    } else if secs < 28800 {
        two_units_read_back(hours, 'h', minutes % 60, 'm');
        assert(hours * 3600 + minutes % 60 * 60 == minutes * 60);
    } else if secs < 172800 {
        one_unit(hours as nat, 'h');
    } else if secs < 691200 {
        two_units_read_back(days, 'd', hours % 24, 'h');
        assert(days * 86400 + hours % 24 * 3600 == hours * 3600);
    } else if secs < 63072000 {
        one_unit(days as nat, 'd');
    } else if secs < 252288000 {
        two_units_read_back(days / 365, 'y', days % 365, 'd');
        assert(days / 365 * 31536000 + days % 365 * 86400 == days * 86400);
    } else {
        one_unit((days / 365) as nat, 'y');
        assert(days / 365 == secs / 31536000);
    }
}

/// A longer time never reads as a shorter one.
#[verifier::spinoff_prover]
pub proof fn older_never_looks_younger(a: int, b: int)
    requires
        0 <= a <= b,
    ensures
        age_value(human(a)) <= age_value(human(b)),
{
    age_is_cut_down(a);
    age_is_cut_down(b);
    shown_seconds_grow(a, b);
}

#[verifier::spinoff_prover]
proof fn shown_seconds_grow(a: int, b: int)
    requires
        0 <= a <= b,
    ensures
        shown_seconds(a) <= shown_seconds(b),
{
    if a < 600 {
        assert(a <= shown_seconds(b));
    } else if a < 28800 {
        assert(a / 60 * 60 <= shown_seconds(b));
    } else if a < 691200 {
        assert(a / 3600 * 3600 <= shown_seconds(b));
    } else if a < 252288000 {
        assert(a / 86400 * 86400 <= shown_seconds(b));
    } else {
        assert(a / 31536000 * 31536000 <= shown_seconds(b));
    }
}

/// No number other than zero, or none within the range of `i64`.
pub open spec fn no_number(v: Option<JsonView>) -> bool {
    match v {
        Some(JsonView::Int(n)) => n == 0 || n > i64::MAX,
        _ => true,
    }
}

/// The text `r`, which is not empty, stands at `state.waiting.reason` of a container status.
pub open spec fn waits_for(cs: JsonView, r: Seq<char>) -> bool {
    match inner(cs, "state"@, "waiting"@) {
        Some(w) => r.len() > 0 && w.get("reason"@) == Some(JsonView::Text(r)),
        None => false,
    }
}

/// A container status that neither waits for a reason nor has ended.
pub open spec fn undisturbed(cs: JsonView) -> bool {
    &&& inner(cs, "state"@, "terminated"@) is None
    &&& waits_for_nothing(cs)
}

/// A container status without a reason to wait.
pub open spec fn waits_for_nothing(cs: JsonView) -> bool {
    match inner(cs, "state"@, "waiting"@) {
        Some(w) => no_text(w.get("reason"@)),
        None => true,
    }
}

/// A container status that has ended, with `term` at `state.terminated`, and waits for nothing.
pub open spec fn ended_with(cs: JsonView, term: JsonView) -> bool {
    inner(cs, "state"@, "terminated"@) == Some(term) && waits_for_nothing(cs)
}

/// A container status that is undisturbed, ready and running.
pub open spec fn is_up(cs: JsonView) -> bool {
    undisturbed(cs) && cs.get("ready"@) == Some(JsonView::Bool(true)) && inner(cs, "state"@, "running"@) is Some
}

/// A container status that has ended with the exit code zero.
pub open spec fn ended_well(cs: JsonView) -> bool {
    match inner(cs, "state"@, "terminated"@) {
        Some(term) => term.get("exitCode"@) == Some(JsonView::Int(0)),
        None => false,
    }
}

/// A pod that is not being deleted and whose initialising containers have all ended well.
pub open spec fn settled(pod: JsonView) -> bool {
    &&& inner(pod, "metadata"@, "deletionTimestamp"@) is None
    &&& match inner(pod, "status"@, "initContainerStatuses"@) {
        Some(JsonView::Array(items)) => forall|i: int| 0 <= i < items.len() ==> ended_well(#[trigger] items[i]),
        _ => true,
    }
}

/// The container statuses of a pod are `items`, and the first that is disturbed stands at `i`.
pub open spec fn first_disturbed(pod: JsonView, items: Seq<JsonView>, i: int) -> bool {
    &&& inner(pod, "status"@, "containerStatuses"@) == Some(JsonView::Array(items))
    &&& 0 <= i < items.len()
    &&& !undisturbed(items[i])
    &&& forall|k: int| 0 <= k < i ==> undisturbed(#[trigger] items[k])
}

/// A `Ready` condition of the pod is `True`.
pub open spec fn says_ready(pod: JsonView) -> bool {
    match inner(pod, "status"@, "conditions"@) {
        Some(JsonView::Array(conditions)) => exists|i: int|
            0 <= i < conditions.len() && (#[trigger] conditions[i]).get("type"@) == Some(JsonView::Text("Ready"@))
                && conditions[i].get("status"@) == Some(JsonView::Text("True"@)),
        _ => false,
    }
}

proof fn undisturbed_is_not_stopped(cs: JsonView)
    ensures
        undisturbed(cs) == (stopped(cs) is None),
        is_up(cs) == runs_ready(cs),
{
}

proof fn settled_is_initialised(pod: JsonView)
    requires
        settled(pod),
    ensures
        initialising(pod) is None,
{
    if let Some(items) = statuses(pod, "initContainerStatuses"@) {
        all_done(items);
    }
}

proof fn all_done(items: Seq<JsonView>)
    requires
        forall|i: int| 0 <= i < items.len() ==> ended_well(#[trigger] items[i]),
    ensures
        init_progress(items) == items.len(),
    decreases items.len(),
{
    if items.len() > 0 {
        let rest = items.drop_first();
        assert forall|i: int| 0 <= i < rest.len() implies ended_well(#[trigger] rest[i]) by {
            assert(ended_well(items[i + 1]));
        }
        assert(ended_well(items[0]));
        all_done(rest);
    }
}

proof fn first_of_the_stopped(items: Seq<JsonView>, i: int)
    requires
        0 <= i < items.len(),
        forall|k: int| 0 <= k < i ==> undisturbed(#[trigger] items[k]),
        !undisturbed(items[i]),
    ensures
        first_stopped(items) == stopped(items[i]),
    decreases items.len(),
{
    undisturbed_is_not_stopped(items[i]);
    let init = items.drop_last();
    if i < items.len() - 1 {
        assert forall|k: int| 0 <= k < i implies undisturbed(#[trigger] init[k]) by {
            assert(undisturbed(items[k]));
        }
        assert(init[i] == items[i]);
        first_of_the_stopped(init, i);
    } else {
        none_stopped(init);
    }
}

proof fn none_stopped(items: Seq<JsonView>)
    requires
        forall|k: int| 0 <= k < items.len() ==> undisturbed(#[trigger] items[k]),
    ensures
        first_stopped(items) is None,
    decreases items.len(),
{
    if items.len() > 0 {
        let init = items.drop_last();
        assert forall|k: int| 0 <= k < init.len() implies undisturbed(#[trigger] init[k]) by {
            assert(undisturbed(items[k]));
        }
        none_stopped(init);
        assert(undisturbed(items[items.len() - 1]));
        undisturbed_is_not_stopped(items.last());
    }
}

/// Of a settled pod, what disturbs the first disturbed container is the status, whatever the
/// phase and the reason of the pod and the other containers are: the reason that it waits for, or
/// what it ended with (the reason, else the signal, else the exit code).
pub proof fn first_disturbed_container_decides(pod: JsonView, items: Seq<JsonView>, i: int, term: JsonView, r: Seq<char>, n: int)
    requires
        settled(pod),
        first_disturbed(pod, items, i),
    ensures
        waits_for(items[i], r) && r != "Completed"@ ==> status_of(pod) == r,
        ended_with(items[i], term) ==> {
            &&& term.get("reason"@) == Some(JsonView::Text(r)) && r.len() > 0 && r != "Completed"@ ==> status_of(pod) == r
            &&& no_text(term.get("reason"@)) ==> {
                &&& term.get("signal"@) == Some(JsonView::Int(n)) && n != 0 && n <= i64::MAX ==> status_of(pod)
                    == "Signal:"@ + decimal_int(n)
                &&& no_number(term.get("signal"@)) ==> {
                    &&& term.get("exitCode"@) == Some(JsonView::Int(n)) && n <= i64::MAX ==> status_of(pod)
                        == "ExitCode:"@ + decimal_int(n)
                    &&& no_number(term.get("exitCode"@)) ==> status_of(pod) == "ExitCode:"@ + decimal_int(0)
                }
            }
        },
{
    settled_is_initialised(pod);
    first_of_the_stopped(items, i);
    reveal_strlit("Completed");
    reveal_strlit("Signal:");
    reveal_strlit("ExitCode:");
    assert("Completed"@[0] == 'C' && "Signal:"@[0] == 'S' && "ExitCode:"@[0] == 'E');
    assert(("Signal:"@ + decimal_int(n))[0] == 'S');
    assert(("ExitCode:"@ + decimal_int(n))[0] == 'E');
    assert(("ExitCode:"@ + decimal_int(0))[0] == 'E');
}

/// A settled pod that is completed as far as its first disturbed container goes, while another is
/// up, is `Running` where it says that it is ready and `NotReady` where it does not; where none is
/// up it is `Completed`.
pub proof fn completed_beside_running(pod: JsonView, items: Seq<JsonView>, i: int, term: JsonView)
    requires
        settled(pod),
        first_disturbed(pod, items, i),
        waits_for(items[i], "Completed"@) || (ended_with(items[i], term) && term.get("reason"@) == Some(
            JsonView::Text("Completed"@),
        )),
    ensures
        (exists|k: int| 0 <= k < items.len() && is_up(#[trigger] items[k])) ==> status_of(pod) == if says_ready(pod) {
            "Running"@
        } else {
            "NotReady"@
        },
        (forall|k: int| 0 <= k < items.len() ==> !is_up(#[trigger] items[k])) ==> status_of(pod) == "Completed"@,
{
    settled_is_initialised(pod);
    first_of_the_stopped(items, i);
    reveal_strlit("Completed");
    reveal_strlit("Running");
    reveal_strlit("NotReady");
    ready_is_said(pod);
    if exists|k: int| 0 <= k < items.len() && is_up(#[trigger] items[k]) {
        let k = choose|k: int| 0 <= k < items.len() && is_up(#[trigger] items[k]);
        undisturbed_is_not_stopped(items[k]);
        assert(runs_ready(items[k]));
    } else {
        assert forall|k: int| 0 <= k < items.len() implies !runs_ready(#[trigger] items[k]) by {
            undisturbed_is_not_stopped(items[k]);
            assert(!is_up(items[k]));
        }
    }
}

proof fn ready_is_said(pod: JsonView)
    ensures
        says_ready(pod) == ready_condition(pod),
{
    if let Some(conditions) = statuses(pod, "conditions"@) {
        if says_ready(pod) {
            let i = choose|i: int|
                0 <= i < conditions.len() && (#[trigger] conditions[i]).get("type"@) == Some(JsonView::Text("Ready"@))
                    && conditions[i].get("status"@) == Some(JsonView::Text("True"@));
            assert(text_of(conditions[i].get("status"@)) == Some("True"@));
        }
        if ready_condition(pod) {
            let i = choose|i: int|
                0 <= i < conditions.len() && text_of(conditions[i].get("type"@)) == Some("Ready"@) && text_of(
                    #[trigger] conditions[i].get("status"@),
                ) == Some("True"@);
            assert(conditions[i].get("type"@) == Some(JsonView::Text("Ready"@)));
        }
    }
}

/// The container statuses of a pod, none where there is no list of them.
pub open spec fn listed_statuses(pod: JsonView) -> Seq<JsonView> {
    match inner(pod, "status"@, "containerStatuses"@) {
        Some(JsonView::Array(items)) => items,
        _ => seq![],
    }
}

/// Of a settled pod without a disturbed container the pod's own reason is the status, else its
/// phase, else `-`; one that says `Completed` while a container is up is `Running` or `NotReady`.
pub proof fn pod_speaks_for_undisturbed_containers(pod: JsonView, r: Seq<char>)
    requires
        settled(pod),
        forall|k: int| 0 <= k < listed_statuses(pod).len() ==> undisturbed(#[trigger] listed_statuses(pod)[k]),
    ensures
        r != "Completed"@ ==> {
            &&& inner(pod, "status"@, "reason"@) == Some(JsonView::Text(r)) && r.len() > 0 ==> status_of(pod) == r
            &&& no_text(inner(pod, "status"@, "reason"@)) && inner(pod, "status"@, "phase"@) == Some(JsonView::Text(r))
                && r.len() > 0 ==> status_of(pod) == r
            &&& no_text(inner(pod, "status"@, "reason"@)) && no_text(inner(pod, "status"@, "phase"@)) ==> status_of(pod)
                == "-"@
        },
        inner(pod, "status"@, "reason"@) == Some(JsonView::Text("Completed"@)) || (no_text(inner(pod, "status"@, "reason"@))
            && inner(pod, "status"@, "phase"@) == Some(JsonView::Text("Completed"@))) ==> {
            &&& (exists|k: int| 0 <= k < listed_statuses(pod).len() && is_up(#[trigger] listed_statuses(pod)[k]))
                ==> status_of(pod) == if says_ready(pod) {
                "Running"@
            } else {
                "NotReady"@
            }
            &&& (forall|k: int| 0 <= k < listed_statuses(pod).len() ==> !is_up(#[trigger] listed_statuses(pod)[k]))
                ==> status_of(pod) == "Completed"@
        },
{
    let items = listed_statuses(pod);
    settled_is_initialised(pod);
    none_stopped(items);
    ready_is_said(pod);
    reveal_strlit("");
    reveal_strlit("-");
    reveal_strlit("Completed");
    reveal_strlit("Running");
    reveal_strlit("NotReady");
    assert(""@.len() != "Completed"@.len());
    assert(items == or_none(statuses(pod, "containerStatuses"@)));
    assert forall|k: int| 0 <= k < items.len() implies is_up(#[trigger] items[k]) == runs_ready(items[k]) by {
        undisturbed_is_not_stopped(items[k]);
    }
}

/// Of a pod that is not being deleted, the first initialising container that has not ended well
/// decides the status, whatever the other containers do: what it ended with, the reason that it
/// waits for, or how many have ended well of how many there are.
pub proof fn first_unfinished_initialiser_decides(
    pod: JsonView,
    items: Seq<JsonView>,
    i: int,
    planned: Seq<JsonView>,
    term: JsonView,
    r: Seq<char>,
    n: int,
)
    requires
        inner(pod, "metadata"@, "deletionTimestamp"@) is None,
        inner(pod, "status"@, "initContainerStatuses"@) == Some(JsonView::Array(items)),
        0 <= i < items.len(),
        !ended_well(items[i]),
        forall|k: int| 0 <= k < i ==> ended_well(#[trigger] items[k]),
    ensures
        inner(items[i], "state"@, "terminated"@) == Some(term) ==> {
            &&& term.get("reason"@) == Some(JsonView::Text(r)) && r.len() > 0 ==> status_of(pod) == "Init:"@ + r
            &&& no_text(term.get("reason"@)) && term.get("signal"@) == Some(JsonView::Int(n)) && n != 0 && n <= i64::MAX
                ==> status_of(pod) == "Init:"@ + ("Signal:"@ + decimal_int(n))
            &&& no_text(term.get("reason"@)) && no_number(term.get("signal"@)) && term.get("exitCode"@) == Some(
                JsonView::Int(n),
            ) && n <= i64::MAX ==> status_of(pod) == "Init:"@ + ("ExitCode:"@ + decimal_int(n))
        },
        inner(items[i], "state"@, "terminated"@) is None ==> {
            &&& waits_for(items[i], r) && r != "PodInitializing"@ ==> status_of(pod) == "Init:"@ + r
            &&& undisturbed(items[i]) || waits_for(items[i], "PodInitializing"@) ==> {
                &&& inner(pod, "spec"@, "initContainers"@) == Some(JsonView::Array(planned)) ==> status_of(pod)
                    == "Init:"@ + decimal(i as nat) + "/"@ + decimal(planned.len())
                &&& inner(pod, "spec"@, "initContainers"@) is None ==> status_of(pod) == "Init:"@ + decimal(i as nat)
                    + "/"@ + decimal(items.len())
            }
        },
{
    done_up_to(items, i);
    reveal_strlit("Init:");
}

proof fn done_up_to(items: Seq<JsonView>, i: int)
    requires
        0 <= i < items.len(),
        !ended_well(items[i]),
        forall|k: int| 0 <= k < i ==> ended_well(#[trigger] items[k]),
    ensures
        init_progress(items) == i,
    decreases i,
{
    if i > 0 {
        let rest = items.drop_first();
        assert(ended_well(items[0]));
        assert(rest[i - 1] == items[i]);
        assert forall|k: int| 0 <= k < i - 1 implies ended_well(#[trigger] rest[k]) by {
            assert(ended_well(items[k + 1]));
        }
        done_up_to(rest, i - 1);
    }
}

/// The restarts of lists of container statuses add up, whatever stands where, and one status
/// counts what it says, or nothing.
pub proof fn restarts_add_up(a: Seq<JsonView>, b: Seq<JsonView>, cs: JsonView, n: int)
    ensures
        restart_total(a + b) == restart_total(a) + restart_total(b),
        restart_total(seq![]) == 0,
        n >= 0 && cs.get("restartCount"@) == Some(JsonView::Int(n)) ==> restart_total(seq![cs]) == n,
        cs.get("restartCount"@) is None ==> restart_total(seq![cs]) == 0,
    decreases b.len(),
{
    assert(seq![cs].drop_last() =~= seq![]);
    if b.len() == 0 {
        assert(a + b =~= a);
    } else {
        assert((a + b).drop_last() =~= a + b.drop_last());
        restarts_add_up(a, b.drop_last(), cs, n);
    }
}

/// The restarts of a pod are those of its containers once it is initialised, and those of the
/// containers that initialise it until then.
pub proof fn restarts_follow_the_initialisation(pod: JsonView, items: Seq<JsonView>, i: int)
    ensures
        settled(pod) ==> restarts(pod) == restart_total(listed_statuses(pod)),
        inner(pod, "status"@, "initContainerStatuses"@) == Some(JsonView::Array(items)) && 0 <= i < items.len()
            && !ended_well(items[i]) ==> restarts(pod) == restart_total(items),
{
    if settled(pod) {
        settled_is_initialised(pod);
    }
    if inner(pod, "status"@, "initContainerStatuses"@) == Some(JsonView::Array(items)) && 0 <= i < items.len()
        && !ended_well(items[i]) {
        not_all_done(items, i);
    }
}

proof fn not_all_done(items: Seq<JsonView>, i: int)
    requires
        0 <= i < items.len(),
        !ended_well(items[i]),
    ensures
        init_progress(items) < items.len(),
    decreases items.len(),
{
    if i > 0 && ended_well(items[0]) {
        assert(items.drop_first()[i - 1] == items[i]);
        not_all_done(items.drop_first(), i - 1);
    }
}

/// Ready containers of lists add up, and one status counts where it says that it is ready.
pub proof fn ready_containers_add_up(a: Seq<JsonView>, b: Seq<JsonView>, cs: JsonView)
    ensures
        ready_count(a + b) == ready_count(a) + ready_count(b),
        ready_count(seq![]) == 0,
        cs.get("ready"@) == Some(JsonView::Bool(true)) ==> ready_count(seq![cs]) == 1,
        cs.get("ready"@) != Some(JsonView::Bool(true)) ==> ready_count(seq![cs]) == 0,
    decreases b.len(),
{
    assert(seq![cs].drop_last() =~= seq![]);
    if b.len() == 0 {
        assert(a + b =~= a);
    } else {
        assert((a + b).drop_last() =~= a + b.drop_last());
        ready_containers_add_up(a, b.drop_last(), cs);
    }
}

/// The READY column shows the ready ones among the container statuses over the containers that the
/// pod declares; the IP and NODE columns show what the pod says, or `-`.
pub proof fn pod_columns_show_the_pod(pod: JsonView, planned: Seq<JsonView>, t: Seq<char>)
    ensures
        inner(pod, "spec"@, "containers"@) == Some(JsonView::Array(planned)) ==> readiness(pod) == decimal(
            ready_count(listed_statuses(pod)),
        ) + "/"@ + decimal(planned.len()),
        inner(pod, "spec"@, "containers"@) is None ==> readiness(pod) == decimal(ready_count(listed_statuses(pod)))
            + "/"@ + decimal(0),
        t.len() > 0 && inner(pod, "spec"@, "nodeName"@) == Some(JsonView::Text(t)) ==> node(pod) == t,
        no_text(inner(pod, "spec"@, "nodeName"@)) ==> node(pod) == "-"@,
        t.len() > 0 && inner(pod, "status"@, "podIP"@) == Some(JsonView::Text(t)) ==> address(pod) == t,
        no_text(inner(pod, "status"@, "podIP"@)) ==> address(pod) == "-"@,
{
}

/// An age is told in seconds below two minutes, in whole minutes from ten minutes to three hours, in
/// whole hours from eight to forty-eight, in whole days from eight days to two years and in whole
/// years from eight on; one of a second before zero is zero, and one of more before it is none.
#[verifier::spinoff_prover]
pub proof fn ages_are_told_in_whole_units(n: int, a: nat, b: nat)
    ensures
        n < -1 ==> human(n) == "<invalid>"@,
        n == -1 ==> human(n) == "0s"@,
        0 <= n < 120 ==> human(n) == decimal(n as nat) + "s"@,
        10 <= a < 180 && b < 60 && n == a * 60 + b ==> human(n) == decimal(a) + "m"@,
        8 <= a < 48 && b < 3600 && n == a * 3600 + b ==> human(n) == decimal(a) + "h"@,
        8 <= a < 730 && b < 86400 && n == a * 86400 + b ==> human(n) == decimal(a) + "d"@,
        8 <= a && b < 31536000 && n == a * 31536000 + b ==> human(n) == decimal(a) + "y"@,
{
    if 10 <= a < 180 && b < 60 && n == a * 60 + b {
        assert(n / 60 == a && n / 3600 < 3);
        assert(human(n) == decimal(a) + "m"@);
    }
    if 8 <= a < 48 && b < 3600 && n == a * 3600 + b {
        assert(n / 3600 == a && n / 60 >= 10);
        assert(human(n) == decimal(a) + "h"@);
    }
    if 8 <= a < 730 && b < 86400 && n == a * 86400 + b {
        assert(n / 86400 == a && n / 3600 >= 48 && n / 60 >= 10);
        assert(human(n) == decimal(a) + "d"@);
    }
    if 8 <= a && b < 31536000 && n == a * 31536000 + b {
        let days = n / 86400;
        assert(a * 365 <= days < a * 365 + 365);
        assert(days / 365 == a && n / 3600 >= 48 && n / 60 >= 10);
        assert(human(n) == decimal(a) + "y"@);
    }
}

/// Between those spans an age is told in two units, minutes and seconds, hours and minutes, days and
/// hours or years and days; the smaller one is left out where it is zero, and what is smaller still
/// is not told.
#[verifier::spinoff_prover]
pub proof fn ages_are_told_in_two_units(n: int, a: nat, b: nat, rest: nat)
    ensures
        2 <= a < 10 && b < 60 && n == a * 60 + b ==> human(n) == decimal(a) + "m"@ + (if b > 0 {
            decimal(b) + "s"@
        } else {
            Seq::empty()
        }),
        3 <= a < 8 && b < 60 && rest < 60 && n == a * 3600 + b * 60 + rest ==> human(n) == decimal(a) + "h"@ + (if b
            > 0 {
            decimal(b) + "m"@
        } else {
            Seq::empty()
        }),
        2 <= a < 8 && b < 24 && rest < 3600 && n == a * 86400 + b * 3600 + rest ==> human(n) == decimal(a) + "d"@ + (if b
            > 0 {
            decimal(b) + "h"@
        } else {
            Seq::empty()
        }),
        2 <= a < 8 && b < 365 && rest < 86400 && n == a * 31536000 + b * 86400 + rest ==> human(n) == decimal(a) + "y"@ + (
        if b > 0 {
            decimal(b) + "d"@
        } else {
            Seq::empty()
        }),
{
    if 2 <= a < 10 && b < 60 && n == a * 60 + b {
        assert(n / 60 == a && n % 60 == b);
        assert(human(n) == two_units(a as int, "m"@, b as int, "s"@));
    }
    if 3 <= a < 8 && b < 60 && rest < 60 && n == a * 3600 + b * 60 + rest {
        let minutes = n / 60;
        assert(minutes == a * 60 + b);
        assert(n / 3600 == a && minutes % 60 == b);
        assert(human(n) == two_units(a as int, "h"@, b as int, "m"@));
    }
    if 2 <= a < 8 && b < 24 && rest < 3600 && n == a * 86400 + b * 3600 + rest {
        let hours = n / 3600;
        assert(hours == a * 24 + b);
        assert(n / 86400 == a && hours % 24 == b && n / 60 >= 10);
        assert(human(n) == two_units(a as int, "d"@, b as int, "h"@));
    }
    if 2 <= a < 8 && b < 365 && rest < 86400 && n == a * 31536000 + b * 86400 + rest {
        let days = n / 86400;
        assert(days == a * 365 + b);
        assert(days / 365 == a && days % 365 == b && n / 3600 >= 48 && n / 60 >= 10);
        assert(human(n) == two_units(a as int, "y"@, b as int, "d"@));
    }
}

/// Of twenty characters with numbers at the six places, the year, month, day, hour, minute and second,
/// a timestamp is one just where the marks stand between them and a `Z` at the end, with a month and
/// a day that there can be. It names the second that its numbers count, sixty minutes to the hour and
/// sixty seconds to the minute.
pub proof fn timestamps_are_read_by_their_places(s: Seq<char>, y: nat, m: nat, d: nat, h: nat, min: nat, sec: nat)
    requires
        s.len() == 20,
        positional(s.subrange(0, 4), 10) == Some(y),
        positional(s.subrange(5, 7), 10) == Some(m),
        positional(s.subrange(8, 10), 10) == Some(d),
        positional(s.subrange(11, 13), 10) == Some(h),
        positional(s.subrange(14, 16), 10) == Some(min),
        positional(s.subrange(17, 19), 10) == Some(sec),
    ensures
        s[4] == '-' && s[7] == '-' && s[10] == 'T' && s[13] == ':' && s[16] == ':' && s[19] == 'Z' && 1 <= m <= 12 && 1
            <= d <= 31 ==> instant(s) == Some(
            ((epoch_days(y as int, m as int, d as int) * 24 + h) * 60 + min) * 60 + sec,
        ),
        s[4] != '-' || s[7] != '-' || s[10] != 'T' || s[13] != ':' || s[16] != ':' || s[19] != 'Z' ==> instant(s) is None,
        m == 0 || m > 12 || d == 0 || d > 31 ==> instant(s) is None,
{
    assert(s.skip(19) =~= seq![s[19]]);
}

} // verus!
