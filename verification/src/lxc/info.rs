//! One instance in full.
use super::client::{in_project, payload, project_path, with_recursion, LxcClient, LxcReply};
use crate::format::{pretty, write_pretty};
use crate::output::{bounded, BoundedWriter, Error, Outcome, Report};
use crate::text::{lines, owned, split_lines};
use crate::value::opt;
use vstd::prelude::*;
use vstd::string::*;

verus! {

/// The arguments of the command.
#[derive(Debug)]
pub struct InfoArgs {
    pub name: String,
    pub project: Option<String>,
    pub limit: Option<usize>,
}

/// The path of an instance.
pub open spec fn instance_path(name: Seq<char>, project: Option<Seq<char>>) -> Seq<char> {
    in_project("/1.0/instances/"@ + name, project)
}

/// The path of an instance.
pub fn write_instance_path(name: &str, project: &Option<String>) -> (r: String)
    ensures
        r@ == instance_path(name@, opt(*project)),
{
    let mut path = "/1.0/instances/".to_owned();
    path.append(name);
    project_path(path.as_str(), project)
}

/// Shows an instance from the daemon's reply to the request for its path, with a recursion
/// depth of one.
pub fn run(args: &InfoArgs, client: &LxcClient, reply: &LxcReply) -> (r: Result<Report, Error>)
    ensures
        match payload(with_recursion(instance_path(args.name@, opt(args.project)), 1), *reply) {
            Err(m) => r is Err && r->Err_0.message@ == m,
            Ok(None) => r is Ok && r->Ok_0.outcome == Outcome::NotFound && r->Ok_0.lines@.len() == 0,
            Ok(Some(v)) => r is Ok && r->Ok_0.outcome == Outcome::Found && r->Ok_0.lines.deep_view() == bounded(
                lines(pretty(v, ""@)),
                args.limit,
            ),
        },
{
    let path = write_instance_path(args.name.as_str(), &args.project);
    match client.get_json_recursive(path.as_str(), 1, reply) {
        Ok(Some(found)) => {
            let text = write_pretty(&found, "");
            let rows = owned(&split_lines(text.as_str()));
            let mut writer = BoundedWriter::new(args.limit);
            writer.write_rows(rows);
            assert(writer@.lines =~= bounded(lines(text@), args.limit));
            Ok(Report { lines: writer.lines, outcome: Outcome::Found })
        },
        Ok(None) => Ok(Report { lines: Vec::new(), outcome: Outcome::NotFound }),
        Err(e) => Err(e),
    }
}

/// An instance is asked for by its name, in a project where one is given, so that no two names are
/// asked for at the same place.
pub proof fn instances_have_their_own_places(a: Seq<char>, b: Seq<char>, project: Option<Seq<char>>)
    ensures
        instance_path(a, None) == "/1.0/instances/"@ + a,
        project is Some ==> instance_path(a, project) == "/1.0/instances/"@ + a + "?project="@ + project->0,
        instance_path(a, project) == instance_path(b, project) ==> a == b,
{
    let head = "/1.0/instances/"@;
    let tail = match project {
        Some(p) => "?project="@ + p,
        None => Seq::empty(),
    };
    assert(instance_path(a, project) =~= head + a + tail);
    assert(instance_path(b, project) =~= head + b + tail);
    if instance_path(a, project) == instance_path(b, project) {
        let n = instance_path(a, project).len();
        assert(a.len() == b.len());
        assert((head + a + tail).subrange(head.len() as int, n - tail.len()) =~= a);
        assert((head + b + tail).subrange(head.len() as int, n - tail.len()) =~= b);
    }
}

} // verus!
