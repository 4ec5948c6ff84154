//! The type of a value.
use super::{find_targets, path_is_bad, targets};
use crate::output::{answer_rows, answers, Error, Report};
use crate::path::bad_path;
use crate::value::{opt, type_label, type_text, Json};
use vstd::prelude::*;

verus! {

/// The arguments of the command.
#[derive(Debug)]
pub struct TypeArgs {
    pub path: Option<String>,
    pub files: Vec<String>,
    pub limit: Option<usize>,
}

/// Names the type of each document, or of the value at the path in each that has one.
pub fn run(args: &TypeArgs, inputs: &Vec<(String, Json)>) -> (r: Result<Report, Error>)
    ensures
        ({
            let found = targets(inputs.deep_view(), opt(args.path));
            match r {
                Ok(report) => !path_is_bad(inputs.deep_view(), opt(args.path)) && answers(
                    report,
                    Seq::new(found.len(), |i: int| type_text(found[i])),
                    args.limit,
                ),
                Err(e) => path_is_bad(inputs.deep_view(), opt(args.path)) && e.message@ == bad_path(args.path->0@),
            }
        }),
{
    let found = match find_targets(inputs, &args.path) {
        Ok(found) => found,
        Err(e) => {
            return Err(e);
        },
    };
    let ghost all = found.deep_view();
    let ghost rows = Seq::new(all.len(), |i: int| type_text(all[i]));
    let mut out: Vec<String> = Vec::new();
    for i in 0..found.len()
        invariant
            all == found.deep_view(),
            rows == Seq::new(all.len(), |i: int| type_text(all[i])),
            out.deep_view() =~= rows.take(i as int),
    {
        let ghost before = out.deep_view();
        assert(found@[i as int]@ == all[i as int]);
        let line = type_label(found[i]).to_owned();
        out.push(line);
        assert(out.deep_view() =~= before.push(line@));
    }
    assert(rows.take(rows.len() as int) =~= rows);
    Ok(answer_rows(out, args.limit))
}

} // verus!
