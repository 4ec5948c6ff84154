//! Queries over a span of time.
use super::client::{loki_data, HttpReply, LokiClient};
use super::common_args::CommonLokiArgs;
use super::query::{encoded, format_result, result_rows, urlencode};
use super::runner::{emit_lines, ends_with, run_loki};
use crate::clock::unix_now;
use crate::number::{decimal, write_u64};
use crate::output::{Error, Report};
use vstd::prelude::*;
use vstd::string::*;

verus! {

/// The nanoseconds of a second.
pub const NANOS_PER_SEC: u64 = 1_000_000_000;

/// The arguments of the command.
#[derive(Debug)]
pub struct RangeArgs {
    pub common: CommonLokiArgs,
    /// The LogQL expression.
    pub query: String,
    /// How far back the span starts.
    pub since: String,
    /// How far apart samples are.
    pub step: String,
}

/// Whole seconds in nanoseconds, as far as a `u64` goes.
pub open spec fn nanos(secs: int) -> int {
    if secs * 1_000_000_000 > u64::MAX {
        u64::MAX as int
    } else {
        secs * 1_000_000_000
    }
}

/// Whole seconds in nanoseconds, as far as a `u64` goes.
pub fn to_nanos(secs: u64) -> (r: u64)
    ensures
        r == nanos(secs as int),
{
    match secs.checked_mul(NANOS_PER_SEC) {
        Some(n) => n,
        None => u64::MAX,
    }
}

/// The path that a query over a span is sent to: the span in nanoseconds, the step in seconds.
pub open spec fn range_path(query: Seq<char>, start: int, end: int, step: int) -> Seq<char> {
    "/loki/api/v1/query_range?query="@ + encoded(query) + "&start="@ + decimal(nanos(start) as nat) + "&end="@ + decimal(
        nanos(end) as nat,
    ) + "&step="@ + decimal(step as nat)
}

/// The path that a query over a span, given in seconds, is sent to.
pub fn build_range_path(query: &str, start_secs: u64, end_secs: u64, step_secs: u64) -> (r: String)
    ensures
        r@ == range_path(query@, start_secs as int, end_secs as int, step_secs as int),
{
    let mut out = "/loki/api/v1/query_range?query=".to_owned();
    out.append(urlencode(query).as_str());
    out.append("&start=");
    out.append(write_u64(to_nanos(start_secs)).as_str());
    out.append("&end=");
    out.append(write_u64(to_nanos(end_secs)).as_str());
    out.append("&step=");
    out.append(write_u64(step_secs).as_str());
    out
}

/// The start of a span that ends at `now`; a span longer than all time starts at its start.
pub open spec fn span_start(now: int, since: int) -> int {
    if since > now {
        0
    } else {
        now - since
    }
}

/// What is wrong with the durations, if anything: `since` and `step` are what they come to in
/// seconds, or why they are none.
pub open spec fn span_fault(since: Result<u64, String>, step: Result<u64, String>) -> Option<Seq<char>> {
    match (since, step) {
        (Err(e), _) => Some("--since: "@ + e@),
        (Ok(_), Err(e)) => Some("--step: "@ + e@),
        (Ok(_), Ok(n)) => if n == 0 {
            Some("--step must be a non-zero duration"@)
        } else {
            None
        },
    }
}

/// The span and the step, once they are found to be in order.
pub fn check_span(since: &Result<u64, String>, step: &Result<u64, String>) -> (r: Result<(u64, u64), Error>)
    ensures
        match r {
            Ok((s, n)) => span_fault(*since, *step) is None && *since == Ok::<u64, String>(s) && *step == Ok::<u64, String>(n),
            Err(e) => span_fault(*since, *step) == Some(e.message@),
        },
{
    let span: u64 = match since {
        Ok(n) => *n,
        Err(e) => {
            let mut message = "--since: ".to_owned();
            message.append(e.as_str());
            return Err(Error { message });
        },
    };
    let apart: u64 = match step {
        Ok(n) => *n,
        Err(e) => {
            let mut message = "--step: ".to_owned();
            message.append(e.as_str());
            return Err(Error { message });
        },
    };
    if apart == 0 {
        return Err(Error { message: "--step must be a non-zero duration".to_owned() });
    }
    Ok((span, apart))
}

/// The path that the query is sent to at `now`.
pub fn path_at(args: &RangeArgs, since: u64, step: u64, now: u64) -> (r: String)
    ensures
        r@ == range_path(args.query@, span_start(now as int, since as int), now as int, step as int),
{
    build_range_path(args.query.as_str(), now.saturating_sub(since), now, step)
}

/// The path that the query is sent to now. `since` and `step` are what the durations come to in
/// seconds, or why they are none.
pub fn request_path(args: &RangeArgs, since: &Result<u64, String>, step: &Result<u64, String>) -> (r: Result<
    String,
    Error,
>)
    ensures
        span_fault(*since, *step) is Some ==> r is Err && span_fault(*since, *step) == Some(r->Err_0.message@),
        span_fault(*since, *step) is None ==> match r {
            Ok(path) => exists|now: u64|
                path@ == #[trigger] range_path(
                    args.query@,
                    span_start(now as int, since->Ok_0 as int),
                    now as int,
                    step->Ok_0 as int,
                ),
            Err(e) => "system clock is before the unix epoch: "@.is_prefix_of(e.message@),
        },
{
    let (span, apart): (u64, u64) = match check_span(since, step) {
        Ok(found) => found,
        Err(e) => {
            return Err(e);
        },
    };
    match unix_now() {
        Ok(now) => {
            let path = path_at(args, span, apart, now);
            assert(path@ == range_path(
                args.query@,
                span_start(now as int, since->Ok_0 as int),
                now as int,
                step->Ok_0 as int,
            ));
            Ok(path)
        },
        Err(e) => Err(e),
    }
}

/// Answers a query over a span from the server's reply to the request for `path`.
pub fn run(args: &RangeArgs, client: &LokiClient, path: &str, reply: HttpReply) -> (r: Result<Report, Error>)
    ensures
        ends_with(r, args.common, loki_data(client.base_url@, path@, reply@), result_rows()),
{
    let ghost data = loki_data(client.base_url@, path@, reply@);
    match run_loki(&args.common, client, path, reply) {
        Err(e) => Err(e),
        Ok(Ok(report)) => {
            assert(ends_with(Ok(report), args.common, data, result_rows()));
            Ok(report)
        },
        Ok(Err(found)) => match format_result(&found) {
            Ok(rows) => Ok(emit_lines(rows, args.common.limit)),
            Err(e) => Err(e),
        },
    }
}

/// A span ends now and starts so long before, at the start of 1970 at the earliest; times are sent
/// in nanoseconds, as far as they go.
pub proof fn spans_end_now(now: int, since: int, secs: int)
    requires
        0 <= since,
        0 <= now,
        0 <= secs,
    ensures
        since <= now ==> span_start(now, since) + since == now,
        since >= now ==> span_start(now, since) == 0,
        secs <= 18446744073 ==> nanos(secs) == secs * 1000000000,
        secs > 18446744073 ==> nanos(secs) == u64::MAX,
{
}

/// A range is refused for the first of its durations that is none, and for a step of no length; no
/// other range is refused.
pub proof fn steps_have_a_length(since: Result<u64, String>, step: Result<u64, String>)
    ensures
        since is Err ==> span_fault(since, step) == Some("--since: "@ + since->Err_0@),
        since is Ok && step is Err ==> span_fault(since, step) == Some("--step: "@ + step->Err_0@),
        since is Ok && step is Ok ==> (span_fault(since, step) is Some <==> step->Ok_0 == 0),
{
}

} // verus!
