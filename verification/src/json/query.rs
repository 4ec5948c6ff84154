//! The value at a path.
use super::{find_targets, path_is_bad, targets};
use crate::format::{compact, compact_is_one_line, format_value, formatted, plain_numbers, pretty};
use crate::gather::{gathered, gathered_step};
use crate::output::{answer_rows, answers, Error, Report};
use crate::path::bad_path;
use crate::text::{owned, pieces, split};
use crate::value::{Json, JsonView};
use vstd::prelude::*;
use vstd::string::*;

verus! {

/// The arguments of the command.
#[derive(Debug)]
pub struct QueryArgs {
    pub expression: String,
    pub files: Vec<String>,
    /// Shows a text without quotes.
    pub raw: bool,
    pub compact: bool,
    pub pretty: bool,
    pub limit: Option<usize>,
}

/// The lines of a value.
pub open spec fn value_rows(raw: bool, is_pretty: bool) -> spec_fn(JsonView) -> Seq<Seq<char>> {
    |v: JsonView| pieces(formatted(v, raw, is_pretty), '\n')
}

/// The lines of values, one after the other.
pub fn write_values(values: &Vec<&Json>, raw: bool, is_pretty: bool) -> (r: Vec<String>)
    ensures
        r.deep_view() == gathered(values.deep_view(), value_rows(raw, is_pretty)),
        values@.len() > 0 <==> r@.len() > 0,
{
    let ghost all = values.deep_view();
    let ghost f = value_rows(raw, is_pretty);
    let mut out: Vec<String> = Vec::new();
    assert(out.deep_view() =~= gathered(all.take(0), f));
    for i in 0..values.len()
        invariant
            all == values.deep_view(),
            f == value_rows(raw, is_pretty),
            out.deep_view() == gathered(all.take(i as int), f),
            i > 0 <==> out@.len() > 0,
    {
        proof {
            gathered_step(all, f, i as int);
        }
        let ghost before = out.deep_view();
        assert(values@[i as int]@ == all[i as int]);
        let text = format_value(values[i], raw, is_pretty);
        let parts = split(text.as_str(), '\n');
        let mut more = owned(&parts);
        let ghost added = more.deep_view();
        assert(added.len() == parts.deep_view().len());
        out.append(&mut more);
        assert(out.deep_view() =~= before + added);
        assert(out.deep_view().len() == out@.len());
    }
    assert(all.take(all.len() as int) =~= all);
    out
}

/// Shows the value at the path in each document that has one.
pub fn run(args: &QueryArgs, inputs: &Vec<(String, Json)>) -> (r: Result<Report, Error>)
    ensures
        match r {
            Ok(report) => !path_is_bad(inputs.deep_view(), Some(args.expression@)) && answers(
                report,
                gathered(targets(inputs.deep_view(), Some(args.expression@)), value_rows(args.raw, args.pretty)),
                args.limit,
            ),
            Err(e) => path_is_bad(inputs.deep_view(), Some(args.expression@)) && e.message@ == bad_path(
                args.expression@,
            ),
        },
{
    let path = Some(args.expression.clone());
    match find_targets(inputs, &path) {
        Ok(found) => Ok(answer_rows(write_values(&found, args.raw, args.pretty), args.limit)),
        Err(e) => Err(e),
    }
}

/// A value is shown as JSON on one line, or pretty over several; a text as it is where that is asked
/// for, each of its lines a row.
pub proof fn values_are_shown_as_asked(v: JsonView, t: Seq<char>)
    ensures
        plain_numbers(v) ==> value_rows(false, false)(v) == seq![compact(v)],
        plain_numbers(v) && !(v is Text) ==> value_rows(true, false)(v) == seq![compact(v)],
        !(v is Text) ==> value_rows(false, true)(v) == pieces(pretty(v, seq![]), '\n'),
        v == JsonView::Text(t) ==> value_rows(true, false)(v) == pieces(t, '\n') && value_rows(true, true)(v) == pieces(
            t,
            '\n',
        ),
{
    if plain_numbers(v) {
        compact_is_one_line(v);
    }
}

} // verus!
