//! The paths of a document's leaves.
use super::flatten::{check_separator, order_leaves, ArrayMode};
use crate::fields::{put_all, put_all_keeps_the_last};
use crate::gather::{gathered, gathered_step};
use crate::order::text_le;
use crate::output::{answer_rows, answers, Error, Report};
use vstd::prelude::*;

verus! {

/// The arguments of the command.
#[derive(Debug)]
pub struct PathsArgs {
    pub files: Vec<String>,
    pub separator: String,
    pub max_depth: Option<usize>,
    pub arrays: ArrayMode,
    pub limit: Option<usize>,
}

/// The paths of leaves.
pub open spec fn leaf_paths() -> spec_fn(Seq<(Seq<char>, Seq<char>)>) -> Seq<Seq<char>> {
    |leaves: Seq<(Seq<char>, Seq<char>)>| Seq::new(leaves.len(), |i: int| leaves[i].0)
}

/// The paths of one document's leaves, in order.
pub open spec fn document_paths() -> spec_fn(Seq<(Seq<char>, Seq<char>)>) -> Seq<Seq<char>> {
    |leaves: Seq<(Seq<char>, Seq<char>)>| leaf_paths()(put_all(leaves))
}

fn write_paths(rows: &mut Vec<String>, leaves: &Vec<(String, String)>)
    ensures
        final(rows).deep_view() == old(rows).deep_view() + leaf_paths()(leaves.deep_view()),
{
    let ghost before = rows.deep_view();
    let ghost all = leaves.deep_view();
    let ghost add = leaf_paths()(all);
    for i in 0..leaves.len()
        invariant
            all == leaves.deep_view(),
            add == leaf_paths()(all),
            rows.deep_view() =~= before + add.take(i as int),
    {
        let ghost so_far = rows.deep_view();
        assert(all[i as int].0 == leaves@[i as int].0@);
        let path = leaves[i].0.clone();
        rows.push(path);
        assert(rows.deep_view() =~= so_far.push(path@));
    }
    assert(add.take(add.len() as int) =~= add);
}

/// Lists the paths of the leaves of documents, document by document, in order. `documents` are the
/// leaves of each, in any order.
pub fn run(args: &PathsArgs, documents: &Vec<Vec<(String, String)>>) -> (r: Result<Report, Error>)
    ensures
        match r {
            Ok(report) => args.separator@.len() > 0 && answers(
                report,
                gathered(documents.deep_view(), document_paths()),
                args.limit,
            ),
            Err(e) => args.separator@.len() == 0 && e.message@ == "--separator must not be empty"@,
        },
{
    if let Err(e) = check_separator(args.separator.as_str()) {
        return Err(e);
    }
    let ghost all = documents.deep_view();
    let ghost f = document_paths();
    let mut rows: Vec<String> = Vec::new();
    assert(rows.deep_view() =~= gathered(all.take(0), f));
    for i in 0..documents.len()
        invariant
            all == documents.deep_view(),
            f == document_paths(),
            rows.deep_view() == gathered(all.take(i as int), f),
    {
        proof {
            gathered_step(all, f, i as int);
        }
        assert(documents@[i as int].deep_view() == all[i as int]);
        let leaves = order_leaves(&documents[i]);
        write_paths(&mut rows, &leaves.entries);
    }
    assert(all.take(all.len() as int) =~= all);
    Ok(answer_rows(rows, args.limit))
}

/// The paths that are written of one document ascend, each once.
pub proof fn paths_ascend(leaves: Seq<(Seq<char>, Seq<char>)>)
    ensures
        ({
            let paths = document_paths()(leaves);
            forall|i: int, j: int|
                0 <= i < j < paths.len() ==> #[trigger] paths[i] != #[trigger] paths[j] && text_le(paths[i], paths[j])
        }),
{
    let all = put_all(leaves);
    let paths = document_paths()(leaves);
    put_all_keeps_the_last(leaves);
    assert forall|i: int, j: int| 0 <= i < j < paths.len() implies #[trigger] paths[i] != #[trigger] paths[j] && text_le(
        paths[i],
        paths[j],
    ) by {
        assert(all[i].0 != all[j].0 && text_le(all[i].0, all[j].0));
    }
}

} // verus!
