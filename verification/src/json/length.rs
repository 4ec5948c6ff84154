//! The length of a value.
use super::{find_targets, path_is_bad, reach_count, reached, targets};
use crate::gather::{gathered_or, gathered_or_step};
use crate::number::{decimal, write_u64};
use crate::output::{bounded, BoundedWriter, Error, Outcome, Report};
use crate::path::bad_path;
use crate::value::{length_of, opt, type_label, type_text, value_length, Json, JsonView};
use vstd::prelude::*;
use vstd::string::*;

verus! {

/// The arguments of the command.
#[derive(Debug)]
pub struct LengthArgs {
    pub path: Option<String>,
    pub files: Vec<String>,
    pub limit: Option<usize>,
}

/// The row of a value: its length, or that it has none.
pub open spec fn length_row() -> spec_fn(JsonView) -> Result<Seq<Seq<char>>, Seq<char>> {
    |v: JsonView|
        match length_of(v) {
            Some(n) => Ok(seq![decimal(n as nat)]),
            None => Err(
                "value of type '"@ + type_text(v) + "' has no length (expected array, object, or string)"@,
            ),
        }
}

/// The length of a value.
pub fn measure(v: &Json) -> (r: Result<String, Error>)
    ensures
        match r {
            Ok(t) => length_row()(v@) == Ok::<Seq<Seq<char>>, Seq<char>>(seq![t@]),
            Err(e) => length_row()(v@) == Err::<Seq<Seq<char>>, Seq<char>>(e.message@),
        },
{
    match value_length(v) {
        Some(n) => Ok(write_u64(n as u64)),
        None => {
            let mut message = "value of type '".to_owned();
            message.append(type_label(v));
            message.append("' has no length (expected array, object, or string)");
            Err(Error { message })
        },
    }
}

/// Measures each document, or the value at the path in each that has one.
pub fn run(args: &LengthArgs, inputs: &Vec<(String, Json)>) -> (r: Result<Report, Error>)
    ensures
        ({
            let found = targets(inputs.deep_view(), opt(args.path));
            let rows = gathered_or(reached(found, args.limit), length_row());
            match r {
                Ok(report) => {
                    &&& !path_is_bad(inputs.deep_view(), opt(args.path))
                    &&& rows is Ok
                    &&& report.lines.deep_view() == bounded(rows->Ok_0, args.limit)
                    &&& report.outcome == if found.len() > 0 {
                        Outcome::Found
                    } else {
                        Outcome::NotFound
                    }
                },
                Err(e) => if path_is_bad(inputs.deep_view(), opt(args.path)) {
                    e.message@ == bad_path(args.path->0@)
                } else {
                    rows == Err::<Seq<Seq<char>>, Seq<char>>(e.message@)
                },
            }
        }),
{
    let found = match find_targets(inputs, &args.path) {
        Ok(found) => found,
        Err(e) => {
            return Err(e);
        },
    };
    let ghost all = reached(found.deep_view(), args.limit);
    let ghost f = length_row();
    assert(found.deep_view().len() == found@.len());
    let count = reach_count(found.len(), args.limit);
    assert(all.len() == count);
    let mut rows: Vec<String> = Vec::new();
    assert(all.take(0) =~= seq![]);
    assert(rows.deep_view() =~= seq![]);
    for i in 0..count
        invariant
            count == all.len(),
            count <= found@.len(),
            all == reached(found.deep_view(), args.limit),
            found.deep_view() == targets(inputs.deep_view(), opt(args.path)),
            !path_is_bad(inputs.deep_view(), opt(args.path)),
            f == length_row(),
            rows.deep_view().len() == i,
            gathered_or(all.take(i as int), f) == Ok::<Seq<Seq<char>>, Seq<char>>(rows.deep_view()),
    {
        proof {
            gathered_or_step(all, f, i as int);
            assert(found@[i as int]@ == all[i as int]);
        }
        let ghost before = rows.deep_view();
        match measure(found[i]) {
            Ok(t) => {
                rows.push(t);
                assert(rows.deep_view() =~= before + seq![t@]);
            },
            Err(e) => {
                return Err(e);
            },
        }
    }
    assert(all.take(all.len() as int) =~= all);
    let mut writer = BoundedWriter::new(args.limit);
    writer.write_rows(rows);
    assert(writer@.lines =~= bounded(rows.deep_view(), args.limit));
    let outcome = if found.len() > 0 {
        Outcome::Found
    } else {
        Outcome::NotFound
    };
    Ok(Report { lines: writer.lines, outcome })
}

/// The length of a list, an object or a text is the number of its items, members or characters; what
/// holds nothing has none.
pub proof fn lengths_are_told(v: JsonView, items: Seq<JsonView>, members: Seq<(Seq<char>, JsonView)>, t: Seq<char>)
    ensures
        length_row()(JsonView::Array(items)) == Ok::<Seq<Seq<char>>, Seq<char>>(seq![decimal(items.len())]),
        length_row()(JsonView::Object(members)) == Ok::<Seq<Seq<char>>, Seq<char>>(seq![decimal(members.len())]),
        length_row()(JsonView::Text(t)) == Ok::<Seq<Seq<char>>, Seq<char>>(seq![decimal(t.len())]),
        v is Null || v is Bool || v is Int || v is Float ==> length_row()(v) == Err::<Seq<Seq<char>>, Seq<char>>(
            "value of type '"@ + type_text(v) + "' has no length (expected array, object, or string)"@,
        ),
{
}

} // verus!
