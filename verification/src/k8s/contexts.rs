//! The contexts of a kubeconfig.
use crate::order::{
    sort, sorted, sorted_is_a_stable_sort, text_at_most, text_le, text_le_total, text_le_transitive, views, Ranked,
};
use crate::output::{answer_rows, answers, Report};
use crate::text::{row, same, write_row};
use crate::value::{opt, or_text};
use vstd::prelude::*;
use vstd::string::*;

verus! {

/// The arguments of the command.
#[derive(Debug)]
pub struct ContextsArgs {
    pub limit: Option<usize>,
}

/// What a context stands for.
#[derive(Debug, PartialEq)]
pub struct Context {
    pub cluster: String,
    pub user: Option<String>,
    pub namespace: Option<String>,
}

/// A context with its name.
#[derive(Debug, PartialEq)]
pub struct NamedContext {
    pub name: String,
    pub context: Option<Context>,
}

/// What a `NamedContext` says: its name, cluster, user and namespace, empty where not given.
#[verifier::ext_equal]
pub struct ContextModel {
    pub name: Seq<char>,
    pub cluster: Seq<char>,
    pub user: Seq<char>,
    pub namespace: Seq<char>,
}

impl View for NamedContext {
    type V = ContextModel;

    open spec fn view(&self) -> ContextModel {
        match self.context {
            Some(c) => ContextModel {
                name: self.name@,
                cluster: c.cluster@,
                user: or_text(opt(c.user), ""@),
                namespace: or_text(opt(c.namespace), ""@),
            },
            None => ContextModel { name: self.name@, cluster: ""@, user: ""@, namespace: ""@ },
        }
    }
}

impl Ranked for NamedContext {
    open spec fn le(a: ContextModel, b: ContextModel) -> bool {
        text_le(a.name, b.name)
    }

    proof fn le_total(a: ContextModel, b: ContextModel) {
        text_le_total(a.name, b.name);
    }

    proof fn le_transitive(a: ContextModel, b: ContextModel, c: ContextModel) {
        text_le_transitive(a.name, b.name, c.name);
    }

    fn at_most(&self, other: &Self) -> (r: bool) {
        text_at_most(self.name.as_str(), other.name.as_str())
    }
}

/// The row of a context, marked where it is the current one.
pub open spec fn context_line(c: ContextModel, current: Seq<char>) -> Seq<char> {
    row(seq![if c.name == current { "*"@ } else { ""@ }, c.name, c.cluster, c.user, c.namespace])
}

fn or_empty<'a>(t: &'a Option<String>) -> (r: &'a str)
    ensures
        r@ == or_text(opt(*t), ""@),
{
    match t {
        Some(t) => t.as_str(),
        None => "",
    }
}

fn context_row(c: &NamedContext, current: &str) -> (r: String)
    ensures
        r@ == context_line(c@, current@),
{
    let marker = if same(c.name.as_str(), current) { "*" } else { "" };
    let (cluster, user, namespace): (&str, &str, &str) = match &c.context {
        Some(context) => (context.cluster.as_str(), or_empty(&context.user), or_empty(&context.namespace)),
        None => ("", "", ""),
    };
    let fields = vec![marker, c.name.as_str(), cluster, user, namespace];
    assert(fields.deep_view() =~= seq![marker@, c.name@, cluster@, user@, namespace@]);
    write_row(&fields)
}

/// The rows of the contexts by name.
pub open spec fn context_rows(contexts: Seq<ContextModel>, current: Seq<char>) -> Seq<Seq<char>> {
    let all = sorted::<NamedContext>(contexts);
    Seq::new(all.len(), |i: int| context_line(all[i], current))
}

/// Lists the contexts by name and marks the current one.
pub fn run(args: &ContextsArgs, contexts: Vec<NamedContext>, current: &Option<String>) -> (r: Report)
    ensures
        answers(r, context_rows(views(contexts@), or_text(opt(*current), ""@)), args.limit),
{
    let marked = or_empty(current);
    let ghost rows = context_rows(views(contexts@), marked@);
    let all = sort(contexts);
    let mut lines: Vec<String> = Vec::new();
    for i in 0..all.len()
        invariant
            rows == Seq::new(all@.len(), |k: int| context_line(views(all@)[k], marked@)),
            lines.deep_view() =~= rows.take(i as int),
    {
        let ghost before = lines.deep_view();
        let line = context_row(&all[i], marked);
        assert(line@ == rows[i as int]);
        lines.push(line);
        assert(lines.deep_view() =~= before.push(line@));
    }
    assert(rows.take(rows.len() as int) =~= rows);
    answer_rows(lines, args.limit)
}

/// The contexts are listed by name and none is left out. The current one is marked with a star and
/// no other; a row shows the name, the cluster, the user and the namespace.
pub proof fn contexts_are_listed_by_name(contexts: Seq<ContextModel>, current: Seq<char>, i: int, j: int)
    requires
        0 <= i < contexts.len(),
        0 <= j < contexts.len(),
    ensures
        context_rows(contexts, current).len() == contexts.len(),
        sorted::<NamedContext>(contexts).to_multiset() == contexts.to_multiset(),
        i < j ==> text_le(sorted::<NamedContext>(contexts)[i].name, sorted::<NamedContext>(contexts)[j].name),
        ({
            let c = sorted::<NamedContext>(contexts)[i];
            &&& c.name == current ==> context_rows(contexts, current)[i] == row(
                seq!["*"@, c.name, c.cluster, c.user, c.namespace],
            )
            &&& c.name != current ==> context_rows(contexts, current)[i] == row(
                seq![seq![], c.name, c.cluster, c.user, c.namespace],
            )
        }),
{
    sorted_is_a_stable_sort::<NamedContext>(contexts);
    if i < j {
        assert(NamedContext::le(sorted::<NamedContext>(contexts)[i], sorted::<NamedContext>(contexts)[j]));
    }
    reveal_strlit("");
    assert(""@ =~= seq![]);
}

} // verus!
