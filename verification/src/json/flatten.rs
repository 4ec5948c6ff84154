//! Documents as pairs of path and value.
use crate::fields::{
    keys_ascend, keys_differ, order_of_putting_does_not_matter, put_all, put_all_keeps_the_last, rearranged_pairs,
    FieldMap,
};
use crate::gather::{gathered, gathered_step};
use crate::output::{answer_rows, answers, Error, Report};
use crate::text::{row, write_row};
use vstd::prelude::*;

verus! {

/// How arrays are walked.
#[derive(Clone, Copy, Debug, PartialEq, Eq, Structural)]
pub enum ArrayMode {
    /// Item by item.
    Index,
    /// Not at all: an array is a leaf.
    Skip,
}

/// The arguments of the command.
#[derive(Debug)]
pub struct FlattenArgs {
    pub files: Vec<String>,
    pub separator: String,
    pub max_depth: Option<usize>,
    pub arrays: ArrayMode,
    pub lines: bool,
    pub limit: Option<usize>,
}

/// Refuses an empty separator.
pub fn check_separator(separator: &str) -> (r: Result<(), Error>)
    ensures
        match r {
            Ok(_) => separator@.len() > 0,
            Err(e) => separator@.len() == 0 && e.message@ == "--separator must not be empty"@,
        },
{
    if separator.is_empty() {
        Err(Error { message: "--separator must not be empty".to_owned() })
    } else {
        Ok(())
    }
}

/// The rows of leaves.
pub open spec fn leaf_rows() -> spec_fn(Seq<(Seq<char>, Seq<char>)>) -> Seq<Seq<char>> {
    |leaves: Seq<(Seq<char>, Seq<char>)>| Seq::new(leaves.len(), |i: int| row(seq![leaves[i].0, leaves[i].1]))
}

/// The rows of one document's leaves, in the order of their paths.
pub open spec fn document_rows() -> spec_fn(Seq<(Seq<char>, Seq<char>)>) -> Seq<Seq<char>> {
    |leaves: Seq<(Seq<char>, Seq<char>)>| leaf_rows()(put_all(leaves))
}

/// The leaves of a document in the order of their paths.
pub fn order_leaves(leaves: &Vec<(String, String)>) -> (r: FieldMap<String>)
    ensures
        r@ == put_all(leaves.deep_view()),
        r.entries.deep_view() == r@,
{
    let ghost all = leaves.deep_view();
    let mut map: FieldMap<String> = FieldMap::new();
    assert(put_all(all.take(0)) =~= seq![]);
    for i in 0..leaves.len()
        invariant
            all == leaves.deep_view(),
            map@ == put_all(all.take(i as int)),
    {
        let (path, value) = &leaves[i];
        proof {
            assert(all[i as int] == (path@, value@));
            assert(all.take(i + 1).drop_last() =~= all.take(i as int));
            assert(all.take(i + 1).last() == all[i as int]);
        }
        map.insert(path.clone(), value.clone());
    }
    assert(all.take(all.len() as int) =~= all);
    assert(map.entries.deep_view() =~= map@);
    map
}

fn write_leaves(rows: &mut Vec<String>, leaves: &Vec<(String, String)>)
    ensures
        final(rows).deep_view() == old(rows).deep_view() + leaf_rows()(leaves.deep_view()),
{
    let ghost before = rows.deep_view();
    let ghost all = leaves.deep_view();
    let ghost add = leaf_rows()(all);
    for i in 0..leaves.len()
        invariant
            all == leaves.deep_view(),
            add == leaf_rows()(all),
            rows.deep_view() =~= before + add.take(i as int),
    {
        let ghost so_far = rows.deep_view();
        let (path, value) = &leaves[i];
        assert(all[i as int] == (path@, value@));
        let fields = vec![path.as_str(), value.as_str()];
        assert(fields.deep_view() =~= seq![path@, value@]);
        let line = write_row(&fields);
        assert(line@ == add[i as int]);
        rows.push(line);
        assert(rows.deep_view() =~= so_far.push(line@));
    }
    assert(add.take(add.len() as int) =~= add);
}

/// Lists the leaves of documents: the path and the value of each, document by document, in the
/// order of the paths. `documents` are the leaves of each, in any order.
pub fn run(args: &FlattenArgs, documents: &Vec<Vec<(String, String)>>) -> (r: Result<Report, Error>)
    ensures
        match r {
            Ok(report) => args.separator@.len() > 0 && answers(
                report,
                gathered(documents.deep_view(), document_rows()),
                args.limit,
            ),
            Err(e) => args.separator@.len() == 0 && e.message@ == "--separator must not be empty"@,
        },
{
    if let Err(e) = check_separator(args.separator.as_str()) {
        return Err(e);
    }
    let ghost all = documents.deep_view();
    let ghost f = document_rows();
    let mut rows: Vec<String> = Vec::new();
    assert(rows.deep_view() =~= gathered(all.take(0), f));
    for i in 0..documents.len()
        invariant
            all == documents.deep_view(),
            f == document_rows(),
            rows.deep_view() == gathered(all.take(i as int), f),
    {
        proof {
            gathered_step(all, f, i as int);
        }
        assert(documents@[i as int].deep_view() == all[i as int]);
        let leaves = order_leaves(&documents[i]);
        write_leaves(&mut rows, &leaves.entries);
    }
    assert(all.take(all.len() as int) =~= all);
    Ok(answer_rows(rows, args.limit))
}

/// The leaves of a document are written in the order of their paths, each path once.
pub proof fn leaves_come_by_path(leaves: Seq<(Seq<char>, Seq<char>)>)
    ensures
        keys_ascend(put_all(leaves)),
        document_rows()(leaves).len() == put_all(leaves).len(),
{
    put_all_keeps_the_last(leaves);
}

/// The order in which leaves are found does not matter to what is written of them.
pub proof fn order_of_leaves_does_not_matter(a: Seq<(Seq<char>, Seq<char>)>, b: Seq<(Seq<char>, Seq<char>)>)
    requires
        keys_differ(a),
        a.to_multiset() == b.to_multiset(),
    ensures
        document_rows()(a) == document_rows()(b),
{
    rearranged_pairs(a, b);
    order_of_putting_does_not_matter(a, b);
}

} // verus!
