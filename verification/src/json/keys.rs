//! The keys of objects.
use super::{find_targets, path_is_bad, targets};
use crate::gather::{gathered, gathered_step};
use crate::output::{bounded, BoundedWriter, Error, Outcome, Report};
use crate::path::bad_path;
use crate::value::{opt, Json, JsonView};
use vstd::prelude::*;

verus! {

/// The arguments of the command.
#[derive(Debug)]
pub struct KeysArgs {
    pub path: Option<String>,
    pub files: Vec<String>,
    pub depth: Option<usize>,
    pub types: bool,
    pub lines: bool,
    pub limit: Option<usize>,
}

/// How many levels deep keys are listed.
pub fn max_depth(args: &KeysArgs) -> (r: usize)
    ensures
        r == match args.depth {
            Some(n) => n,
            None => 1,
        },
{
    match args.depth {
        Some(n) => n,
        None => 1,
    }
}

/// A value, where it is an object.
pub open spec fn if_object() -> spec_fn(JsonView) -> Seq<JsonView> {
    |v: JsonView|
        match v {
            JsonView::Object(_) => seq![v],
            _ => seq![],
        }
}

/// The objects whose keys are listed: the documents, or the values at the path, that are
/// objects.
pub fn find_objects<'a>(args: &KeysArgs, inputs: &'a Vec<(String, Json)>) -> (r: Result<Vec<&'a Json>, Error>)
    ensures
        match r {
            Ok(found) => !path_is_bad(inputs.deep_view(), opt(args.path)) && found.deep_view() == gathered(
                targets(inputs.deep_view(), opt(args.path)),
                if_object(),
            ),
            Err(e) => path_is_bad(inputs.deep_view(), opt(args.path)) && e.message@ == bad_path(args.path->0@),
        },
{
    let found = match find_targets(inputs, &args.path) {
        Ok(found) => found,
        Err(e) => {
            return Err(e);
        },
    };
    let ghost all = found.deep_view();
    let ghost f = if_object();
    let mut out: Vec<&'a Json> = Vec::new();
    assert(out.deep_view() =~= gathered(all.take(0), f));
    for i in 0..found.len()
        invariant
            all == found.deep_view(),
            f == if_object(),
            out.deep_view() == gathered(all.take(i as int), f),
    {
        proof {
            gathered_step(all, f, i as int);
        }
        let ghost before = out.deep_view();
        assert(found@[i as int]@ == all[i as int]);
        if found[i].as_object().is_some() {
            out.push(found[i]);
            assert(out.deep_view() =~= before + seq![all[i as int]]);
        } else {
            assert(before + seq![] =~= before);
        }
    }
    assert(all.take(all.len() as int) =~= all);
    Ok(out)
}

/// Lists the keys that were collected from objects, object by object. Something is found where
/// there is an object, even one without keys.
pub fn run(args: &KeysArgs, objects: &Vec<Vec<String>>) -> (r: Report)
    ensures
        r.lines.deep_view() == bounded(gathered(objects.deep_view(), |keys: Seq<Seq<char>>| keys), args.limit),
        r.outcome == if objects@.len() > 0 {
            Outcome::Found
        } else {
            Outcome::NotFound
        },
{
    let ghost all = objects.deep_view();
    let ghost f = |keys: Seq<Seq<char>>| keys;
    let mut rows: Vec<String> = Vec::new();
    assert(rows.deep_view() =~= gathered(all.take(0), f));
    for i in 0..objects.len()
        invariant
            all == objects.deep_view(),
            f == (|keys: Seq<Seq<char>>| keys),
            rows.deep_view() == gathered(all.take(i as int), f),
    {
        proof {
            gathered_step(all, f, i as int);
        }
        let ghost before = rows.deep_view();
        assert(objects@[i as int].deep_view() == all[i as int]);
        let keys = &objects[i];
        for j in 0..keys.len()
            invariant
                rows.deep_view() =~= before + keys.deep_view().take(j as int),
        {
            let ghost so_far = rows.deep_view();
            let key = keys[j].clone();
            rows.push(key);
            assert(rows.deep_view() =~= so_far.push(key@));
        }
        assert(keys.deep_view().take(keys@.len() as int) =~= all[i as int]);
    }
    assert(all.take(all.len() as int) =~= all);
    let mut writer = BoundedWriter::new(args.limit);
    writer.write_rows(rows);
    assert(writer@.lines =~= bounded(rows.deep_view(), args.limit));
    let outcome = if objects.len() > 0 {
        Outcome::Found
    } else {
        Outcome::NotFound
    };
    Report { lines: writer.lines, outcome }
}

} // verus!
