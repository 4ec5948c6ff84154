//! What all commands on a Loki server do with its reply.
use super::client::{loki_data, HttpReply, LokiClient};
use super::common_args::CommonLokiArgs;
use crate::format::{pretty, write_pretty};
use crate::order::{sort_texts, sorted, Text};
use crate::output::{report_rows, reports, Error, Outcome, Report};
use crate::text::{owned, pieces, split};
use crate::value::{Json, JsonView};
use vstd::prelude::*;

verus! {

/// How a command ends, given the data of the reply and the rows that it makes of them: nothing
/// found where there is nothing; the data as JSON where that is asked for; else the rows in
/// order.
pub open spec fn ends_with(
    r: Result<Report, Error>,
    common: CommonLokiArgs,
    data: Result<Option<JsonView>, Seq<char>>,
    rows: spec_fn(JsonView) -> Result<Seq<Seq<char>>, Seq<char>>,
) -> bool {
    match data {
        Err(m) => r is Err && r->Err_0.message@ == m,
        Ok(None) => r is Ok && r->Ok_0.outcome == Outcome::NotFound && r->Ok_0.lines@.len() == 0,
        Ok(Some(v)) => if common.json {
            r is Ok && reports(r->Ok_0, pieces(pretty(v, ""@), '\n'), common.limit)
        } else {
            match rows(v) {
                Err(m) => r is Err && r->Err_0.message@ == m,
                Ok(lines) => r is Ok && reports(r->Ok_0, sorted::<Text>(lines), common.limit),
            }
        },
    }
}

/// Writes a value as JSON, each line of it a row.
pub fn emit_json(v: &Json, limit: Option<usize>) -> (r: Report)
    ensures
        reports(r, pieces(pretty(v@, ""@), '\n'), limit),
{
    let text = write_pretty(v, "");
    report_rows(owned(&split(text.as_str(), '\n')), limit)
}

/// Writes rows in order.
pub fn emit_lines(lines: Vec<String>, limit: Option<usize>) -> (r: Report)
    ensures
        reports(r, sorted::<Text>(lines.deep_view()), limit),
{
    report_rows(sort_texts(lines), limit)
}

/// The answer of a command that is not made of rows: to a reply without data, or as JSON where
/// that is asked for. Else the data that rows are to be made of.
pub fn run_loki(common: &CommonLokiArgs, client: &LokiClient, path: &str, reply: HttpReply) -> (r: Result<
    Result<Report, Json>,
    Error,
>)
    ensures
        match r {
            Err(e) => loki_data(client.base_url@, path@, reply@) == Err::<Option<JsonView>, Seq<char>>(e.message@),
            Ok(Ok(report)) => forall|rows: spec_fn(JsonView) -> Result<Seq<Seq<char>>, Seq<char>>|
                loki_data(client.base_url@, path@, reply@) is Ok && #[trigger] ends_with(
                    Ok(report),
                    *common,
                    loki_data(client.base_url@, path@, reply@),
                    rows,
                ),
            Ok(Err(data)) => !common.json && loki_data(client.base_url@, path@, reply@) == Ok::<
                Option<JsonView>,
                Seq<char>,
            >(Some(data@)),
        },
{
    match client.get_loki(path, reply) {
        Err(e) => Err(e),
        Ok(None) => Ok(Ok(Report { lines: Vec::new(), outcome: Outcome::NotFound })),
        Ok(Some(data)) => if common.json {
            Ok(Ok(emit_json(&data, common.limit)))
        } else {
            Ok(Err(data))
        },
    }
}

} // verus!
