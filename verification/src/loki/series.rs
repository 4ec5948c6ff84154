//! The sets of labels that a selector matches.
use super::client::{loki_data, HttpReply, LokiClient};
use super::common_args::CommonLokiArgs;
use super::query::{encoded, format_labels, label_text, rows_model, urlencode};
use super::range::{nanos, span_start, to_nanos};
use super::runner::{emit_lines, ends_with, run_loki};
use crate::clock::unix_now;
use crate::format::{debug, write_debug};
use crate::gather::{gathered_or, gathered_or_holds, gathered_or_step};
use crate::number::{decimal, write_u64};
use crate::output::{Error, Report};
use crate::value::{Json, JsonView};
use vstd::prelude::*;
use vstd::string::*;

verus! {

/// The arguments of the command.
#[derive(Debug)]
pub struct SeriesArgs {
    pub common: CommonLokiArgs,
    pub selector: String,
    /// How far back the span starts.
    pub start: Option<String>,
    /// How far back the span ends.
    pub end: Option<String>,
}

/// A bound of the span as a part of the path.
pub open spec fn bound(head: Seq<char>, secs: Option<u64>) -> Seq<char> {
    match secs {
        Some(s) => head + decimal(nanos(s as int) as nat),
        None => seq![],
    }
}

/// The path of the series that a selector matches, in the span given in seconds.
pub open spec fn series_path(selector: Seq<char>, start: Option<u64>, end: Option<u64>) -> Seq<char> {
    "/loki/api/v1/series?"@ + encoded("match[]"@) + "="@ + encoded(selector) + bound("&start="@, start) + bound(
        "&end="@,
        end,
    )
}

/// The path of the series that a selector matches, in the span given in seconds.
pub fn build_series_path(selector: &str, start_secs: Option<u64>, end_secs: Option<u64>) -> (r: String)
    ensures
        r@ == series_path(selector@, start_secs, end_secs),
{
    let mut out = "/loki/api/v1/series?".to_owned();
    out.append(urlencode("match[]").as_str());
    out.append("=");
    out.append(urlencode(selector).as_str());
    let ghost head = out@;
    if let Some(s) = start_secs {
        out.append("&start=");
        out.append(write_u64(to_nanos(s)).as_str());
    }
    assert(out@ =~= head + bound("&start="@, start_secs));
    let ghost middle = out@;
    if let Some(e) = end_secs {
        out.append("&end=");
        out.append(write_u64(to_nanos(e)).as_str());
    }
    assert(out@ =~= middle + bound("&end="@, end_secs));
    out
}

/// The row of one series, or what is wrong with it.
pub open spec fn series_row() -> spec_fn(JsonView) -> Result<Seq<Seq<char>>, Seq<char>> {
    |v: JsonView|
        match v {
            JsonView::Object(_) => Ok(seq![label_text(Some(v))]),
            _ => Err("series entry is not an object: "@ + debug(v)),
        }
}

/// The rows of the series, or what is wrong with them.
pub open spec fn series_rows() -> spec_fn(JsonView) -> Result<Seq<Seq<char>>, Seq<char>> {
    |data: JsonView|
        match data.items() {
            Some(items) => gathered_or(items, series_row()),
            None => Err("Loki /loki/api/v1/series `data` is not an array"@),
        }
}

/// The rows of the series.
pub fn extract_series_lines(data: &Json) -> (r: Result<Vec<String>, Error>)
    ensures
        rows_model(r) == series_rows()(data@),
{
    let items = match data.as_array() {
        Some(items) => items,
        None => {
            return Err(Error { message: "Loki /loki/api/v1/series `data` is not an array".to_owned() });
        },
    };
    let ghost all = items.deep_view();
    let ghost f = series_row();
    let mut out: Vec<String> = Vec::new();
    assert(all.take(0) =~= seq![]);
    assert(out.deep_view() =~= seq![]);
    for i in 0..items.len()
        invariant
            all == items.deep_view(),
            f == series_row(),
            series_rows()(data@) == gathered_or(all, f),
            gathered_or(all.take(i as int), f) == Ok::<Seq<Seq<char>>, Seq<char>>(out.deep_view()),
    {
        proof {
            gathered_or_step(all, f, i as int);
            assert(items@[i as int]@ == all[i as int]);
        }
        let ghost before = out.deep_view();
        if items[i].as_object().is_none() {
            let mut message = "series entry is not an object: ".to_owned();
            message.append(write_debug(&items[i]).as_str());
            return Err(Error { message });
        }
        let line = format_labels(Some(&items[i]));
        out.push(line);
        assert(out.deep_view() =~= before + seq![line@]);
    }
    assert(all.take(all.len() as int) =~= all);
    Ok(out)
}

/// What is wrong with a duration, where one was given: `given` is what it comes to in seconds,
/// or why it is none.
pub open spec fn given_fault(head: Seq<char>, given: Option<Result<u64, String>>) -> Option<Seq<char>> {
    match given {
        Some(Err(e)) => Some(head + e@),
        _ => None,
    }
}

/// A bound of the span at `now`, where one was given.
pub open spec fn bound_at(given: Option<Result<u64, String>>, now: int) -> Option<u64> {
    match given {
        Some(Ok(n)) => Some(span_start(now, n as int) as u64),
        _ => None,
    }
}

fn read_given(head: &str, given: &Option<Result<u64, String>>) -> (r: Result<Option<u64>, Error>)
    ensures
        match r {
            Ok(found) => given_fault(head@, *given) is None && match (*given, found) {
                (None, None) => true,
                (Some(Ok(n)), Some(m)) => n == m,
                _ => false,
            },
            Err(e) => given_fault(head@, *given) == Some(e.message@),
        },
{
    match given {
        None => Ok(None),
        Some(Ok(n)) => Ok(Some(*n)),
        Some(Err(e)) => {
            let mut message = head.to_owned();
            message.append(e.as_str());
            Err(Error { message })
        },
    }
}

fn ago(given: Option<u64>, now: u64) -> (r: Option<u64>)
    ensures
        match (given, r) {
            (None, None) => true,
            (Some(n), Some(m)) => m == span_start(now as int, n as int),
            _ => false,
        },
{
    match given {
        Some(n) => Some(now.saturating_sub(n)),
        None => None,
    }
}

/// The path of the series at `now`. `start` and `end` are what the durations come to in
/// seconds, where they were given.
pub fn path_at(args: &SeriesArgs, start: Option<u64>, end: Option<u64>, now: u64) -> (r: String)
    ensures
        r@ == series_path(
            args.selector@,
            match start {
                Some(n) => Some(span_start(now as int, n as int) as u64),
                None => None,
            },
            match end {
                Some(n) => Some(span_start(now as int, n as int) as u64),
                None => None,
            },
        ),
{
    build_series_path(args.selector.as_str(), ago(start, now), ago(end, now))
}

/// What is wrong with the durations, if anything.
pub open spec fn window_fault(start: Option<Result<u64, String>>, end: Option<Result<u64, String>>) -> Option<Seq<char>> {
    match given_fault("--start: "@, start) {
        Some(e) => Some(e),
        None => given_fault("--end: "@, end),
    }
}

/// The path of the series now. `start` and `end` are what the durations come to in seconds, or
/// why they are none, where they were given.
pub fn request_path(
    args: &SeriesArgs,
    start: &Option<Result<u64, String>>,
    end: &Option<Result<u64, String>>,
) -> (r: Result<String, Error>)
    ensures
        window_fault(*start, *end) is Some ==> r is Err && window_fault(*start, *end) == Some(r->Err_0.message@),
        window_fault(*start, *end) is None ==> match r {
            Ok(path) => exists|now: u64|
                path@ == series_path(
                    args.selector@,
                    #[trigger] bound_at(*start, now as int),
                    bound_at(*end, now as int),
                ),
            Err(e) => "system clock is before the unix epoch: "@.is_prefix_of(e.message@),
        },
{
    let from = match read_given("--start: ", start) {
        Ok(found) => found,
        Err(e) => {
            return Err(e);
        },
    };
    let to = match read_given("--end: ", end) {
        Ok(found) => found,
        Err(e) => {
            return Err(e);
        },
    };
    match unix_now() {
        Ok(now) => {
            let path = path_at(args, from, to, now);
            assert(path@ == series_path(args.selector@, bound_at(*start, now as int), bound_at(*end, now as int)));
            Ok(path)
        },
        Err(e) => Err(e),
    }
}

/// Lists the series from the server's reply to the request for `path`.
pub fn run(args: &SeriesArgs, client: &LokiClient, path: &str, reply: HttpReply) -> (r: Result<Report, Error>)
    ensures
        ends_with(r, args.common, loki_data(client.base_url@, path@, reply@), series_rows()),
{
    let ghost data = loki_data(client.base_url@, path@, reply@);
    match run_loki(&args.common, client, path, reply) {
        Err(e) => Err(e),
        Ok(Ok(report)) => {
            assert(ends_with(Ok(report), args.common, data, series_rows()));
            Ok(report)
        },
        Ok(Err(found)) => match extract_series_lines(&found) {
            Ok(rows) => Ok(emit_lines(rows, args.common.limit)),
            Err(e) => Err(e),
        },
    }
}

/// A path asks for the selector, and for a start and an end where they are given.
pub proof fn bounds_are_asked_for_where_given(selector: Seq<char>, a: u64, b: u64)
    ensures
        series_path(selector, Some(a), None) == series_path(selector, None, None) + "&start="@ + decimal(
            nanos(a as int) as nat,
        ),
        series_path(selector, None, Some(b)) == series_path(selector, None, None) + "&end="@ + decimal(
            nanos(b as int) as nat,
        ),
        series_path(selector, Some(a), Some(b)) == series_path(selector, Some(a), None) + "&end="@ + decimal(
            nanos(b as int) as nat,
        ),
        (encoded("match[]"@) + "="@ + encoded(selector)).is_suffix_of(series_path(selector, None, None)),
{
    let head = "/loki/api/v1/series?"@ + encoded("match[]"@) + "="@ + encoded(selector);
    assert(series_path(selector, None, None) =~= head);
    assert(series_path(selector, Some(a), None) =~= head + "&start="@ + decimal(nanos(a as int) as nat));
    assert(series_path(selector, None, Some(b)) =~= head + "&end="@ + decimal(nanos(b as int) as nat));
    assert(series_path(selector, Some(a), Some(b)) =~= series_path(selector, Some(a), None) + "&end="@ + decimal(
        nanos(b as int) as nat,
    ));
    let tail = encoded("match[]"@) + "="@ + encoded(selector);
    assert(head =~= "/loki/api/v1/series?"@ + tail);
    assert(head.subrange(head.len() - tail.len(), head.len() as int) =~= tail);
}

/// A series is shown as its labels; whatever is no set of labels is refused.
pub proof fn series_are_sets_of_labels(data: Seq<JsonView>, out: Seq<char>)
    ensures
        series_rows()(JsonView::Array(data)) is Ok <==> forall|i: int| 0 <= i < data.len() ==> (#[trigger] data[i]) is Object,
        series_rows()(JsonView::Array(data)) is Ok ==> (series_rows()(JsonView::Array(data))->Ok_0.contains(out)
            <==> exists|i: int| 0 <= i < data.len() && label_text(Some(#[trigger] data[i])) == out),
{
    let f = series_row();
    gathered_or_holds(data, f, out, 0);
    if forall|i: int| 0 <= i < data.len() ==> (#[trigger] data[i]) is Object {
        assert forall|i: int| 0 <= i < data.len() implies f(#[trigger] data[i]) is Ok by {
            assert(data[i] is Object);
        }
    }
    if series_rows()(JsonView::Array(data)) is Ok {
        assert forall|i: int| 0 <= i < data.len() implies (#[trigger] data[i]) is Object by {
            assert(f(data[i]) is Ok);
        }
        assert forall|i: int| 0 <= i < data.len() implies f(#[trigger] data[i])->Ok_0.contains(out) == (label_text(
            Some(data[i]),
        ) == out) by {
            assert(data[i] is Object);
            assert(f(data[i])->Ok_0[0] == label_text(Some(data[i])));
        }
        if exists|i: int| 0 <= i < data.len() && label_text(Some(#[trigger] data[i])) == out {
            let i = choose|i: int| 0 <= i < data.len() && label_text(Some(#[trigger] data[i])) == out;
            assert(f(data[i])->Ok_0.contains(out));
        }
    }
}

} // verus!
