//! JSON documents.
pub mod diff;
pub mod exists_;
pub mod flatten;
pub mod grep;
pub mod hook;
pub mod keys;
pub mod length;
pub mod paths;
pub mod query;
pub mod schema;
pub mod select;
pub mod table;
pub mod type_;
pub mod validate;

use crate::gather::{gathered, gathered_of_both, gathered_step};
use crate::number::{decimal, write_u64};
use crate::output::Error;
use crate::path::{bad_path, resolve_expression, resolved, steps};
use crate::text::{lines, split_lines, trim, trimmed};
use crate::value::{opt, Json, JsonView};
use vstd::prelude::*;
use vstd::string::*;

verus! {

/// The commands on JSON documents.
#[derive(Debug)]
pub enum JsonCommand {
    Query(query::QueryArgs),
    Exists(exists_::ExistsArgs),
    Keys(keys::KeysArgs),
    Flatten(flatten::FlattenArgs),
    Grep(grep::GrepArgs),
    Length(length::LengthArgs),
    Paths(paths::PathsArgs),
    Schema(schema::SchemaArgs),
    Type(type_::TypeArgs),
    Validate(validate::ValidateArgs),
    Diff(diff::DiffArgs),
}

/// The value of a document that is looked at: the one at the path, where a path is given.
pub open spec fn target(path: Option<Seq<char>>) -> spec_fn((Seq<char>, JsonView)) -> Seq<JsonView> {
    |input: (Seq<char>, JsonView)|
        match path {
            Some(expr) => match resolved(input.1, expr) {
                Some(v) => seq![v],
                None => seq![],
            },
            None => seq![input.1],
        }
}

/// The values of the documents that are looked at.
pub open spec fn targets(inputs: Seq<(Seq<char>, JsonView)>, path: Option<Seq<char>>) -> Seq<JsonView> {
    gathered(inputs, target(path))
}

/// Whether a path is given that is not one, with a document to look it up in.
pub open spec fn path_is_bad(inputs: Seq<(Seq<char>, JsonView)>, path: Option<Seq<char>>) -> bool {
    path is Some && inputs.len() > 0 && steps(path->0) is None
}

/// The values of the documents that are looked at.
pub fn find_targets<'a>(inputs: &'a Vec<(String, Json)>, path: &Option<String>) -> (r: Result<Vec<&'a Json>, Error>)
    ensures
        match r {
            Ok(found) => !path_is_bad(inputs.deep_view(), opt(*path)) && found.deep_view() == targets(
                inputs.deep_view(),
                opt(*path),
            ),
            Err(e) => path_is_bad(inputs.deep_view(), opt(*path)) && e.message@ == bad_path(path->0@),
        },
{
    let ghost all = inputs.deep_view();
    let ghost f = target(opt(*path));
    let mut out: Vec<&'a Json> = Vec::new();
    assert(out.deep_view() =~= gathered(all.take(0), f));
    for i in 0..inputs.len()
        invariant
            all == inputs.deep_view(),
            f == target(opt(*path)),
            out.deep_view() == gathered(all.take(i as int), f),
            i > 0 && path is Some ==> steps(path->0@) is Some,
    {
        proof {
            gathered_step(all, f, i as int);
        }
        let ghost before = out.deep_view();
        let value = &inputs[i].1;
        assert(all[i as int].1 == value@);
        match path {
            Some(expr) => match resolve_expression(value, expr.as_str()) {
                Ok(Some(v)) => {
                    out.push(v);
                    assert(out.deep_view() =~= before + seq![v@]);
                },
                Ok(None) => {
                    assert(before + seq![] =~= before);
                },
                Err(e) => {
                    return Err(e);
                },
            },
            None => {
                out.push(value);
                assert(out.deep_view() =~= before + seq![value@]);
            },
        }
    }
    assert(all.take(all.len() as int) =~= all);
    Ok(out)
}

/// The line at `i` as a record: its label `name:number` and its text.
pub open spec fn record_at(name: Seq<char>, ls: Seq<Seq<char>>, i: int) -> (Seq<char>, Seq<char>) {
    (name + ":"@ + decimal((i + 1) as nat), ls[i])
}

/// The records of the first `n` lines: those that are not blank.
pub open spec fn records_to(name: Seq<char>, ls: Seq<Seq<char>>, n: nat) -> Seq<(Seq<char>, Seq<char>)>
    decreases n,
{
    if n == 0 {
        seq![]
    } else {
        let before = records_to(name, ls, (n - 1) as nat);
        if trimmed(ls[n - 1]).len() == 0 {
            before
        } else {
            before.push(record_at(name, ls, n - 1))
        }
    }
}

/// The records of a text that holds one JSON value per line: the label and the text of each
/// line that is not blank.
pub open spec fn records(name: Seq<char>, text: Seq<char>) -> Seq<(Seq<char>, Seq<char>)> {
    records_to(name, lines(text), lines(text).len())
}

/// The label of a line.
pub fn line_label(name: &str, index: usize) -> (r: String)
    requires
        index < usize::MAX,
    ensures
        r@ == name@ + ":"@ + decimal((index + 1) as nat),
{
    let mut out = name.to_owned();
    out.append(":");
    out.append(write_u64(index as u64 + 1).as_str());
    out
}

/// The records of a text that holds one JSON value per line.
pub fn ndjson_records<'a>(name: &str, text: &'a str) -> (r: Vec<(String, &'a str)>)
    ensures
        r.deep_view() == records(name@, text@),
{
    let all = split_lines(text);
    let ghost model = lines(text@);
    let mut out: Vec<(String, &'a str)> = Vec::new();
    assert(out.deep_view() =~= seq![]);
    for i in 0..all.len()
        invariant
            all.deep_view() == model,
            out.deep_view() == records_to(name@, model, i as nat),
    {
        let ghost before = out.deep_view();
        let line = all[i];
        assert(line@ == model[i as int]);
        if !trim(line).is_empty() {
            let label = line_label(name, i);
            let ghost entry = (label@, line@);
            out.push((label, line));
            assert(out.deep_view() =~= before.push(entry));
        }
    }
    assert(all.deep_view().len() == all@.len());
    out
}

/// The values that are looked at under a limit on rows: those within it, and the first one
/// past it.
pub open spec fn reached(values: Seq<JsonView>, limit: Option<usize>) -> Seq<JsonView> {
    match limit {
        Some(n) => if n < values.len() {
            values.take(n + 1)
        } else {
            values
        },
        None => values,
    }
}

/// How many values are looked at under a limit on rows.
pub fn reach_count(n: usize, limit: Option<usize>) -> (r: usize)
    ensures
        r <= n,
        forall|values: Seq<JsonView>| values.len() == n ==> (#[trigger] reached(values, limit)) == values.take(r as int),
{
    let r: usize = match limit {
        Some(k) => if k < n {
            k + 1
        } else {
            n
        },
        None => n,
    };
    proof {
        assert forall|values: Seq<JsonView>| values.len() == n implies (#[trigger] reached(values, limit))
            == values.take(r as int) by {
            assert(values.take(n as int) =~= values);
        }
    }
    r
}

/// What is looked at in documents is looked at in each: the value at the path where it leads
/// somewhere, nothing where it does not, and the document itself where no path is given.
pub proof fn documents_are_looked_at_in_turn(
    a: Seq<(Seq<char>, JsonView)>,
    b: Seq<(Seq<char>, JsonView)>,
    name: Seq<char>,
    v: JsonView,
    expr: Seq<char>,
    w: JsonView,
    path: Option<Seq<char>>,
)
    ensures
        targets(a + b, path) == targets(a, path) + targets(b, path),
        targets(seq![(name, v)], None) == seq![v],
        resolved(v, expr) == Some(w) ==> targets(seq![(name, v)], Some(expr)) == seq![w],
        resolved(v, expr) is None ==> targets(seq![(name, v)], Some(expr)).len() == 0,
{
    gathered_of_both(a, b, target(path));
    one_document(name, v, None);
    one_document(name, v, Some(expr));
}

proof fn one_document(name: Seq<char>, v: JsonView, path: Option<Seq<char>>)
    ensures
        targets(seq![(name, v)], path) == target(path)((name, v)),
{
    let one = seq![(name, v)];
    let f = target(path);
    assert(one.drop_last() =~= Seq::<(Seq<char>, JsonView)>::empty());
    assert(gathered(one.drop_last(), f) =~= Seq::<JsonView>::empty());
    assert(gathered(one, f) == gathered(one.drop_last(), f) + f(one.last()));
    assert(gathered(one, f) =~= f((name, v)));
}

/// Every line that is not blank is a record, under the name of the file and its number counted from
/// one, and nothing else is a record.
pub proof fn every_filled_line_is_a_record(name: Seq<char>, text: Seq<char>, label: Seq<char>, line: Seq<char>)
    ensures
        records(name, text).contains((label, line)) <==> exists|i: int|
            0 <= i < lines(text).len() && #[trigger] lines(text)[i] == line && trimmed(line).len() > 0 && label == name
                + seq![':'] + decimal((i + 1) as nat),
{
    reveal_strlit(":");
    assert(":"@ =~= seq![':']);
    filled_lines_are_records(name, lines(text), lines(text).len(), label, line);
}

proof fn filled_lines_are_records(name: Seq<char>, ls: Seq<Seq<char>>, n: nat, label: Seq<char>, line: Seq<char>)
    requires
        n <= ls.len(),
    ensures
        records_to(name, ls, n).contains((label, line)) <==> exists|i: int|
            0 <= i < n && #[trigger] ls[i] == line && trimmed(line).len() > 0 && label == name + ":"@ + decimal(
                (i + 1) as nat,
            ),
    decreases n,
{
    if n > 0 {
        let m = (n - 1) as nat;
        filled_lines_are_records(name, ls, m, label, line);
        let before = records_to(name, ls, m);
        let out = records_to(name, ls, n);
        if out.contains((label, line)) {
            let k = out.index_of((label, line));
            if k < before.len() {
                assert(before[k] == (label, line));
                assert(before.contains((label, line)));
            } else {
                assert(ls[n - 1] == line);
            }
        }
        if exists|i: int|
            0 <= i < n && #[trigger] ls[i] == line && trimmed(line).len() > 0 && label == name + ":"@ + decimal(
                (i + 1) as nat,
            ) {
            let i = choose|i: int|
                0 <= i < n && #[trigger] ls[i] == line && trimmed(line).len() > 0 && label == name + ":"@ + decimal(
                    (i + 1) as nat,
                );
            if i < m {
                assert(before.contains((label, line)));
                let k = before.index_of((label, line));
                assert(out[k] == (label, line));
            } else {
                assert(out[before.len() as int] == (label, line));
            }
        }
    }
}

} // verus!
