//! Paths whose key or value matches a pattern.
use crate::format::{compact, write_compact};
use crate::gather::{gathered, gathered_step};
use crate::order::{
    ascending, sort, sorted, sorted_is_a_stable_sort, text_at_most, text_le, text_le_total, text_le_transitive, views,
    Ranked,
};
use crate::output::{answer_rows, answers, Error, Report};
use crate::pattern::{compiles, is_pattern};
use crate::text::{row, write_row};
use crate::value::{Json, JsonView};
use vstd::prelude::*;
use vstd::string::*;

verus! {

/// A type that matches are restricted to.
#[derive(Clone, Copy, Debug, PartialEq, Eq, Structural)]
pub enum TypeFilter {
    Object,
    Array,
    Text,
    Number,
    Boolean,
    Null,
}

/// The arguments of the command.
#[derive(Debug)]
pub struct GrepArgs {
    pub pattern: String,
    pub files: Vec<String>,
    pub key: bool,
    /// Matches values, not keys.
    pub value: bool,
    pub type_filter: Option<TypeFilter>,
    pub paths_only: bool,
    pub ignore_case: bool,
    pub limit: Option<usize>,
}

/// The pattern as it is compiled.
pub open spec fn full_pattern(pattern: Seq<char>, ignore_case: bool) -> Seq<char> {
    if ignore_case {
        "(?i)"@ + pattern
    } else {
        pattern
    }
}

/// The pattern as it is compiled, once it is found to be one.
pub fn build_regex(pattern: &str, ignore_case: bool) -> (r: Result<String, Error>)
    ensures
        match r {
            Ok(full) => full@ == full_pattern(pattern@, ignore_case) && is_pattern(full@),
            Err(e) => !is_pattern(full_pattern(pattern@, ignore_case)) && e.message@ == "invalid regex: "@ + pattern@,
        },
{
    let full = if ignore_case {
        let mut out = "(?i)".to_owned();
        out.append(pattern);
        out
    } else {
        pattern.to_owned()
    };
    if compiles(full.as_str()) {
        Ok(full)
    } else {
        let mut message = "invalid regex: ".to_owned();
        message.append(pattern);
        Err(Error { message })
    }
}

/// A path as it is shown: the empty path of a document itself as `(root)`.
pub open spec fn path_label(path: Seq<char>) -> Seq<char> {
    if path.len() == 0 {
        "(root)"@
    } else {
        path
    }
}

/// A path as it is shown.
pub fn format_grep_path<'a>(path: &'a str) -> (r: &'a str)
    ensures
        r@ == path_label(path@),
{
    if path.is_empty() {
        "(root)"
    } else {
        path
    }
}

/// The row of a match: its path, and its value unless only paths are wanted.
pub open spec fn match_row(hit: (Seq<char>, JsonView), paths_only: bool) -> Seq<char> {
    if paths_only {
        path_label(hit.0)
    } else {
        row(seq![path_label(hit.0), compact(hit.1)])
    }
}

/// A match: a path and the value that it leads to, ordered by the path.
pub struct Hit<'a> {
    pub path: &'a str,
    pub value: &'a Json,
}

impl<'a> View for Hit<'a> {
    type V = (Seq<char>, JsonView);

    open spec fn view(&self) -> (Seq<char>, JsonView) {
        (self.path@, self.value@)
    }
}

impl<'a> Ranked for Hit<'a> {
    open spec fn le(a: (Seq<char>, JsonView), b: (Seq<char>, JsonView)) -> bool {
        text_le(a.0, b.0)
    }

    proof fn le_total(a: (Seq<char>, JsonView), b: (Seq<char>, JsonView)) {
        text_le_total(a.0, b.0);
    }

    proof fn le_transitive(a: (Seq<char>, JsonView), b: (Seq<char>, JsonView), c: (Seq<char>, JsonView)) {
        text_le_transitive(a.0, b.0, c.0);
    }

    fn at_most(&self, other: &Self) -> (r: bool) {
        text_at_most(self.path, other.path)
    }
}

/// The rows of one document's matches, in the order of their paths.
pub open spec fn match_rows(paths_only: bool) -> spec_fn(Seq<(Seq<char>, JsonView)>) -> Seq<Seq<char>> {
    |hits: Seq<(Seq<char>, JsonView)>|
        Seq::new(sorted::<Hit>(hits).len(), |i: int| match_row(sorted::<Hit>(hits)[i], paths_only))
}

/// The matches in the order of their paths.
fn order_hits<'a>(hits: &'a Vec<(String, Json)>) -> (r: Vec<Hit<'a>>)
    ensures
        views(r@) == sorted::<Hit>(hits.deep_view()),
{
    let ghost all = hits.deep_view();
    let mut found: Vec<Hit<'a>> = Vec::new();
    for i in 0..hits.len()
        invariant
            all == hits.deep_view(),
            views(found@) =~= all.take(i as int),
    {
        let ghost before = views(found@);
        let (path, value) = &hits[i];
        assert(all[i as int] == (path@, value@));
        let hit = Hit { path: path.as_str(), value };
        found.push(hit);
        assert(views(found@) =~= before.push(hit@));
    }
    assert(all.take(all.len() as int) =~= all);
    sort(found)
}

fn write_matches(rows: &mut Vec<String>, hits: &Vec<(String, Json)>, paths_only: bool)
    ensures
        final(rows).deep_view() == old(rows).deep_view() + match_rows(paths_only)(hits.deep_view()),
{
    let ordered = order_hits(hits);
    let ghost before = rows.deep_view();
    let ghost all = sorted::<Hit>(hits.deep_view());
    let ghost add = match_rows(paths_only)(hits.deep_view());
    for i in 0..ordered.len()
        invariant
            all == views(ordered@),
            add == Seq::new(all.len(), |k: int| match_row(all[k], paths_only)),
            rows.deep_view() =~= before + add.take(i as int),
    {
        let ghost so_far = rows.deep_view();
        let hit = &ordered[i];
        assert(all[i as int] == hit@);
        let label = format_grep_path(hit.path);
        let line = if paths_only {
            label.to_owned()
        } else {
            let text = write_compact(hit.value);
            let fields = vec![label, text.as_str()];
            assert(fields.deep_view() =~= seq![label@, text@]);
            write_row(&fields)
        };
        assert(line@ == add[i as int]);
        rows.push(line);
        assert(rows.deep_view() =~= so_far.push(line@));
    }
    assert(add.take(add.len() as int) =~= add);
}

/// Lists the matches that were found in documents: the path and the value of each, document by
/// document, in the order of the paths. `documents` are the matches of each, in any order.
pub fn run(args: &GrepArgs, documents: &Vec<Vec<(String, Json)>>) -> (r: Result<Report, Error>)
    ensures
        match r {
            Ok(report) => is_pattern(full_pattern(args.pattern@, args.ignore_case)) && answers(
                report,
                gathered(documents.deep_view(), match_rows(args.paths_only)),
                args.limit,
            ),
            Err(e) => !is_pattern(full_pattern(args.pattern@, args.ignore_case)) && e.message@ == "invalid regex: "@
                + args.pattern@,
        },
{
    if let Err(e) = build_regex(args.pattern.as_str(), args.ignore_case) {
        return Err(e);
    }
    let ghost all = documents.deep_view();
    let ghost f = match_rows(args.paths_only);
    let mut rows: Vec<String> = Vec::new();
    assert(rows.deep_view() =~= gathered(all.take(0), f));
    for i in 0..documents.len()
        invariant
            all == documents.deep_view(),
            f == match_rows(args.paths_only),
            rows.deep_view() == gathered(all.take(i as int), f),
    {
        proof {
            gathered_step(all, f, i as int);
        }
        assert(documents@[i as int].deep_view() == all[i as int]);
        write_matches(&mut rows, &documents[i], args.paths_only);
    }
    assert(all.take(all.len() as int) =~= all);
    Ok(answer_rows(rows, args.limit))
}

/// The matches of a document are written in the order of their paths, and none is left out.
pub proof fn matches_come_by_path(hits: Seq<(Seq<char>, JsonView)>)
    ensures
        forall|i: int, j: int|
            0 <= i < j < sorted::<Hit>(hits).len() ==> text_le(
                (#[trigger] sorted::<Hit>(hits)[i]).0,
                (#[trigger] sorted::<Hit>(hits)[j]).0,
            ),
        sorted::<Hit>(hits).to_multiset() == hits.to_multiset(),
        match_rows(true)(hits).len() == hits.len(),
{
    sorted_is_a_stable_sort::<Hit>(hits);
    let all = sorted::<Hit>(hits);
    assert(ascending::<Hit>(all));
    assert forall|i: int, j: int| 0 <= i < j < all.len() implies text_le(
        (#[trigger] all[i]).0,
        (#[trigger] all[j]).0,
    ) by {
        assert(Hit::le(all[i], all[j]));
    }
}

/// A match is told by its path, the whole document by a name of its own, and by its value too unless
/// paths alone are asked for. The pattern stands as it is given, behind a mark where case is ignored.
pub proof fn matches_are_told_by_their_path(path: Seq<char>, v: JsonView, pattern: Seq<char>)
    ensures
        match_row((seq![], v), true) == "(root)"@,
        match_row((seq![], v), false) == row(seq!["(root)"@, compact(v)]),
        path.len() > 0 ==> match_row((path, v), true) == path,
        path.len() > 0 ==> match_row((path, v), false) == row(seq![path, compact(v)]),
        full_pattern(pattern, false) == pattern,
        full_pattern(pattern, true) == "(?i)"@ + pattern,
{
}

} // verus!
