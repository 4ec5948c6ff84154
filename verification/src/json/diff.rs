//! How two documents differ.
use super::grep::{format_grep_path, path_label};
use crate::format::{compact, write_compact};
use crate::order::{lines_of, render_all, views, Line};
use crate::output::{bounded, BoundedWriter};
use crate::value::{Json, JsonView};
use vstd::prelude::*;
use vstd::string::*;

verus! {

/// The arguments of the command.
#[derive(Debug)]
pub struct DiffArgs {
    pub a: String,
    pub b: String,
    pub limit: Option<usize>,
}

/// A place where two documents differ.
#[derive(Debug, PartialEq)]
pub enum DiffEntry {
    /// Only the second has the path.
    Added(String, Json),
    /// Only the first has the path.
    Removed(String, Json),
    /// Both have it, with different values.
    Changed(String, Json, Json),
}

/// What a `DiffEntry` says.
pub enum DiffModel {
    Added(Seq<char>, JsonView),
    Removed(Seq<char>, JsonView),
    Changed(Seq<char>, JsonView, JsonView),
}

impl View for DiffEntry {
    type V = DiffModel;

    open spec fn view(&self) -> DiffModel {
        match self {
            DiffEntry::Added(path, v) => DiffModel::Added(path@, v@),
            DiffEntry::Removed(path, v) => DiffModel::Removed(path@, v@),
            DiffEntry::Changed(path, a, b) => DiffModel::Changed(path@, a@, b@),
        }
    }
}

impl Line for DiffEntry {
    open spec fn line(v: DiffModel) -> Seq<char> {
        match v {
            DiffModel::Added(path, v) => "+ "@ + path_label(path) + "\t"@ + compact(v),
            DiffModel::Removed(path, v) => "- "@ + path_label(path) + "\t"@ + compact(v),
            DiffModel::Changed(path, a, b) => "~ "@ + path_label(path) + "\t"@ + compact(a) + " -> "@ + compact(b),
        }
    }

    fn render(&self) -> (r: String) {
        match self {
            DiffEntry::Added(path, v) => head("+ ", path.as_str(), v),
            DiffEntry::Removed(path, v) => head("- ", path.as_str(), v),
            DiffEntry::Changed(path, a, b) => {
                let mut out = head("~ ", path.as_str(), a);
                out.append(" -> ");
                out.append(write_compact(b).as_str());
                out
            },
        }
    }
}

fn head(mark: &str, path: &str, v: &Json) -> (r: String)
    ensures
        r@ == mark@ + path_label(path@) + "\t"@ + compact(v@),
{
    let mut out = mark.to_owned();
    out.append(format_grep_path(path));
    out.append("\t");
    out.append(write_compact(v).as_str());
    out
}

/// The row of a difference.
pub fn format_diff_entry(entry: &DiffEntry) -> (r: String)
    ensures
        r@ == DiffEntry::line(entry@),
{
    entry.render()
}

/// What was written of a comparison, and whether the documents are the same.
#[derive(Debug, PartialEq)]
pub struct DiffReport {
    pub lines: Vec<String>,
    pub identical: bool,
}

/// Lists the differences that were found between two documents.
pub fn run(args: &DiffArgs, entries: &Vec<DiffEntry>) -> (r: DiffReport)
    ensures
        r.identical == (entries@.len() == 0),
        r.lines.deep_view() == bounded(lines_of::<DiffEntry>(views(entries@)), args.limit),
{
    let rows = render_all(entries);
    let mut writer = BoundedWriter::new(args.limit);
    writer.write_rows(rows);
    assert(writer@.lines =~= bounded(rows.deep_view(), args.limit));
    DiffReport { lines: writer.lines, identical: entries.len() == 0 }
}

/// What was added is marked with a plus, what was removed with a minus, and what changed with a
/// tilde and both values, the old one first; the document itself is called the root.
pub proof fn changes_are_marked(path: Seq<char>, a: JsonView, b: JsonView)
    requires
        path.len() > 0,
    ensures
        DiffEntry::line(DiffModel::Added(path, a)) == seq!['+', ' '] + path + seq!['\t'] + compact(a),
        DiffEntry::line(DiffModel::Removed(path, a)) == seq!['-', ' '] + path + seq!['\t'] + compact(a),
        DiffEntry::line(DiffModel::Changed(path, a, b)) == seq!['~', ' '] + path + seq!['\t'] + compact(a) + seq![
            ' ',
            '-',
            '>',
            ' ',
        ] + compact(b),
        DiffEntry::line(DiffModel::Added(seq![], a)) == seq!['+', ' '] + "(root)"@ + seq!['\t'] + compact(a),
{
    reveal_strlit("+ ");
    reveal_strlit("- ");
    reveal_strlit("~ ");
    reveal_strlit("\t");
    reveal_strlit(" -> ");
    assert("+ "@ =~= seq!['+', ' '] && "- "@ =~= seq!['-', ' '] && "~ "@ =~= seq!['~', ' '] && "\t"@ =~= seq!['\t']
        && " -> "@ =~= seq![' ', '-', '>', ' ']);
}

} // verus!
