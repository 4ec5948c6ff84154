//! The variables of an object's containers.
use crate::gather::{gathered, gathered_holds, gathered_of_both, gathered_step};
use crate::k8s::containers::{
    containers_are_walked_in_order, declared, walk_containers, walked, ContainerModel, ContainerView,
};
use crate::output::{report_rows, reports, Error, Outcome, Report};
use crate::text::{quote, quoted, row, same, write_row};
use crate::value::{at, get_at, list_of, or_text, said, str_of, text_of, text_or, Json, JsonView};
use vstd::prelude::*;
use vstd::string::*;

verus! {

/// The arguments of the command.
#[derive(Debug)]
pub struct EnvArgs {
    pub kind: String,
    pub name: String,
    pub namespace: Option<String>,
    pub limit: Option<usize>,
}

/// Whether objects of a kind carry a pod template.
pub open spec fn has_template(kind: Seq<char>) -> bool {
    kind == "Pod"@ || kind == "Deployment"@ || kind == "StatefulSet"@ || kind == "DaemonSet"@ || kind == "Job"@ || kind
        == "CronJob"@ || kind == "ReplicaSet"@
}

/// Why a kind without a pod template is refused.
pub open spec fn template_refusal(kind: Seq<char>) -> Seq<char> {
    "kind "@ + quoted(kind)
        + " has no pod template — `sak k8s env` only supports: Pod, Deployment, StatefulSet, DaemonSet, Job, CronJob, ReplicaSet"@
}

/// Refuses a kind that carries no pod template.
pub fn check_kind(kind: &str) -> (r: Result<(), Error>)
    ensures
        match r {
            Ok(_) => has_template(kind@),
            Err(e) => !has_template(kind@) && e.message@ == template_refusal(kind@),
        },
{
    if same(kind, "Pod") || same(kind, "Deployment") || same(kind, "StatefulSet") || same(kind, "DaemonSet") || same(
        kind,
        "Job",
    ) || same(kind, "CronJob") || same(kind, "ReplicaSet") {
        return Ok(());
    }
    let mut message = "kind ".to_owned();
    message.append(quote(kind).as_str());
    message.append(
        " has no pod template — `sak k8s env` only supports: Pod, Deployment, StatefulSet, DaemonSet, Job, CronJob, ReplicaSet",
    );
    Err(Error { message })
}

/// A reference to one key of a named object.
pub open spec fn key_ref(head: Seq<char>, r: JsonView) -> Seq<char> {
    head + or_text(text_of(r.get("name"@)), ""@) + "/"@ + or_text(text_of(r.get("key"@)), ""@)
}

/// The value of a variable, or where it comes from; `?` for any other shape.
pub open spec fn env_value(entry: JsonView) -> Seq<char> {
    let from = entry.get("valueFrom"@);
    match text_of(entry.get("value"@)) {
        Some(v) => v,
        None => if at(from, "configMapKeyRef"@) is Some {
            key_ref("cm:"@, at(from, "configMapKeyRef"@)->0)
        } else if at(from, "secretKeyRef"@) is Some {
            key_ref("secret:"@, at(from, "secretKeyRef"@)->0)
        } else if at(from, "fieldRef"@) is Some {
            "field:"@ + or_text(text_of(at(at(from, "fieldRef"@), "fieldPath"@)), ""@)
        } else if at(from, "resourceFieldRef"@) is Some {
            "resource:"@ + or_text(text_of(at(at(from, "resourceFieldRef"@), "resource"@)), ""@)
        } else {
            "?"@
        },
    }
}

fn write_key_ref(head: &str, r: &Json) -> (out: String)
    ensures
        out@ == key_ref(head@, r@),
{
    let mut out = head.to_owned();
    out.append(text_or(str_of(r.get("name")), ""));
    out.append("/");
    out.append(text_or(str_of(r.get("key")), ""));
    out
}

/// The value of a variable, or where it comes from. What a reference points to is not read.
pub fn render_env_value(entry: &Json) -> (r: String)
    ensures
        r@ == env_value(entry@),
{
    if let Some(v) = str_of(entry.get("value")) {
        return v.to_owned();
    }
    let from = entry.get("valueFrom");
    if let Some(r) = get_at(from, "configMapKeyRef") {
        return write_key_ref("cm:", r);
    }
    if let Some(r) = get_at(from, "secretKeyRef") {
        return write_key_ref("secret:", r);
    }
    if let Some(r) = get_at(from, "fieldRef") {
        let mut out = "field:".to_owned();
        out.append(text_or(str_of(r.get("fieldPath")), ""));
        return out;
    }
    if let Some(r) = get_at(from, "resourceFieldRef") {
        let mut out = "resource:".to_owned();
        out.append(text_or(str_of(r.get("resource")), ""));
        return out;
    }
    "?".to_owned()
}

/// The row of a variable; none where it has no name.
pub open spec fn variable_rows(container: Seq<char>) -> spec_fn(JsonView) -> Seq<Seq<char>> {
    |entry: JsonView|
        match text_of(entry.get("name"@)) {
            Some(name) => seq![row(seq![container, name, env_value(entry)])],
            None => seq![],
        }
}

/// The rows of a container's variables.
pub open spec fn env_of() -> spec_fn(ContainerModel) -> Seq<Seq<char>> {
    |c: ContainerModel| gathered(c.env, variable_rows(c.container))
}

/// The rows of the variables of an object's containers, in their order.
pub open spec fn env_rows(value: JsonView) -> Seq<Seq<char>> {
    gathered(walked(value), env_of())
}

fn collect_env(rows: &mut Vec<String>, c: &ContainerView)
    ensures
        final(rows).deep_view() == old(rows).deep_view() + env_of()(c@),
{
    let ghost before = rows.deep_view();
    let ghost all = c@.env;
    let ghost f = variable_rows(c@.container);
    assert(before + gathered(all.take(0), f) =~= before);
    for i in 0..c.env.len()
        invariant
            all == c.env.deep_view(),
            f == variable_rows(c@.container),
            rows.deep_view() == before + gathered(all.take(i as int), f),
    {
        proof {
            gathered_step(all, f, i as int);
        }
        let entry = &c.env[i];
        assert(entry@ == all[i as int]);
        let ghost so_far = rows.deep_view();
        if let Some(name) = str_of(entry.get("name")) {
            let value = render_env_value(entry);
            let fields = vec![c.container, name, value.as_str()];
            assert(fields.deep_view() =~= seq![c.container@, name@, value@]);
            let line = write_row(&fields);
            rows.push(line);
            assert(rows.deep_view() =~= so_far.push(line@));
            assert(rows.deep_view() =~= before + (gathered(all.take(i as int), f) + f(entry@)));
        } else {
            assert(gathered(all.take(i as int), f) + seq![] =~= gathered(all.take(i as int), f));
        }
    }
    assert(all.take(all.len() as int) =~= all);
}

/// Lists the variables of the object of the given kind; `None` stands for an object that does
/// not exist.
pub fn run(args: &EnvArgs, kind: &str, value: Option<&Json>) -> (r: Result<Report, Error>)
    ensures
        match r {
            Ok(report) => has_template(kind@) && match value {
                Some(value) => reports(report, env_rows(value@), args.limit),
                None => report.outcome == Outcome::NotFound && report.lines@.len() == 0,
            },
            Err(e) => !has_template(kind@) && e.message@ == template_refusal(kind@),
        },
{
    if let Err(e) = check_kind(kind) {
        return Err(e);
    }
    let value = match value {
        Some(value) => value,
        None => {
            return Ok(Report { lines: Vec::new(), outcome: Outcome::NotFound });
        },
    };
    let all = walk_containers(value);
    let ghost model = walked(value@);
    let ghost f = env_of();
    let mut rows: Vec<String> = Vec::new();
    assert(rows.deep_view() =~= gathered(model.take(0), f));
    for i in 0..all.len()
        invariant
            all.deep_view() == model,
            f == env_of(),
            rows.deep_view() == gathered(model.take(i as int), f),
    {
        proof {
            gathered_step(model, f, i as int);
        }
        assert(all@[i as int]@ == model[i as int]);
        collect_env(&mut rows, &all[i]);
    }
    assert(all.deep_view().len() == all@.len());
    assert(model.take(model.len() as int) =~= model);
    Ok(report_rows(rows, args.limit))
}

/// A variable with a text for a value shows it. Any other shows where its value comes from: a key
/// of a config map, else a key of a secret, else a field, else a resource, and `?` where none of
/// these is told. What a reference points to is never shown.
pub proof fn variables_show_value_or_reference(entry: JsonView, v: Seq<char>, from: JsonView, r: JsonView)
    ensures
        entry.get("value"@) == Some(JsonView::Text(v)) ==> env_value(entry) == v,
        text_of(entry.get("value"@)) is None && entry.get("valueFrom"@) is None ==> env_value(entry) == "?"@,
        text_of(entry.get("value"@)) is None && entry.get("valueFrom"@) == Some(from) ==> {
            &&& from.get("configMapKeyRef"@) == Some(r) ==> env_value(entry) == "cm:"@ + said(r.get("name"@), ""@) + "/"@
                + said(r.get("key"@), ""@)
            &&& from.get("configMapKeyRef"@) is None && from.get("secretKeyRef"@) == Some(r) ==> env_value(entry)
                == "secret:"@ + said(r.get("name"@), ""@) + "/"@ + said(r.get("key"@), ""@)
            &&& from.get("configMapKeyRef"@) is None && from.get("secretKeyRef"@) is None && from.get("fieldRef"@) == Some(
                r,
            ) ==> env_value(entry) == "field:"@ + said(r.get("fieldPath"@), ""@)
            &&& from.get("configMapKeyRef"@) is None && from.get("secretKeyRef"@) is None && from.get("fieldRef"@) is None
                && from.get("resourceFieldRef"@) == Some(r) ==> env_value(entry) == "resource:"@ + said(
                r.get("resource"@),
                ""@,
            )
            &&& from.get("configMapKeyRef"@) is None && from.get("secretKeyRef"@) is None && from.get("fieldRef"@) is None
                && from.get("resourceFieldRef"@) is None ==> env_value(entry) == "?"@
        },
{
}

/// Every variable with a name is listed behind the name of its container, and nothing else; the
/// variables of a container come behind those of the containers before it.
pub proof fn every_variable_is_listed(value: JsonView, line: Seq<char>, i: int)
    ensures
        env_rows(value).contains(line) <==> exists|c: int, e: int|
            0 <= c < declared(value).len() && 0 <= e < list_of(declared(value)[c].get("env"@)).len() && names_variable(
                line,
                said(declared(value)[c].get("name"@), ""@),
                #[trigger] list_of(declared(value)[c].get("env"@))[e],
            ),
        0 <= i <= declared(value).len() ==> env_rows(value) == gathered(walked(value).take(i), env_of()) + gathered(
            walked(value).skip(i),
            env_of(),
        ),
{
    let all = walked(value);
    let f = env_of();
    gathered_holds(all, f, line);
    if 0 <= i <= declared(value).len() {
        assert(all.take(i) + all.skip(i) =~= all);
        gathered_of_both(all.take(i), all.skip(i), f);
    }
    if env_rows(value).contains(line) {
        let c = choose|c: int| 0 <= c < all.len() && f(#[trigger] all[c]).contains(line);
        containers_are_walked_in_order(value, c);
        let g = variable_rows(all[c].container);
        gathered_holds(all[c].env, g, line);
        let e = choose|e: int| 0 <= e < all[c].env.len() && g(#[trigger] all[c].env[e]).contains(line);
        assert(g(all[c].env[e])[0] == line);
        assert(names_variable(
            line,
            said(declared(value)[c].get("name"@), ""@),
            list_of(declared(value)[c].get("env"@))[e],
        ));
    }
    if exists|c: int, e: int|
        0 <= c < declared(value).len() && 0 <= e < list_of(declared(value)[c].get("env"@)).len() && names_variable(
            line,
            said(declared(value)[c].get("name"@), ""@),
            #[trigger] list_of(declared(value)[c].get("env"@))[e],
        ) {
        let (c, e) = choose|c: int, e: int|
            0 <= c < declared(value).len() && 0 <= e < list_of(declared(value)[c].get("env"@)).len() && names_variable(
                line,
                said(declared(value)[c].get("name"@), ""@),
                #[trigger] list_of(declared(value)[c].get("env"@))[e],
            );
        containers_are_walked_in_order(value, c);
        let g = variable_rows(all[c].container);
        gathered_holds(all[c].env, g, line);
        assert(g(all[c].env[e])[0] == line);
        assert(g(all[c].env[e]).contains(line));
        assert(f(all[c]).contains(line));
    }
}

/// The row of a variable: the container, the name and the value.
pub open spec fn names_variable(line: Seq<char>, container: Seq<char>, entry: JsonView) -> bool {
    match entry.get("name"@) {
        Some(JsonView::Text(name)) => line == row(seq![container, name, env_value(entry)]),
        _ => false,
    }
}

/// The kinds that carry a pod template are taken, and no others: a name of another case or another
/// kind is refused.
pub proof fn kinds_with_a_template(kind: Seq<char>)
    ensures
        has_template(kind) <==> seq![
            "Pod"@,
            "Deployment"@,
            "StatefulSet"@,
            "DaemonSet"@,
            "Job"@,
            "CronJob"@,
            "ReplicaSet"@,
        ].contains(kind),
{
    let kinds = seq![
        "Pod"@,
        "Deployment"@,
        "StatefulSet"@,
        "DaemonSet"@,
        "Job"@,
        "CronJob"@,
        "ReplicaSet"@,
    ];
    assert(kinds[0] == "Pod"@ && kinds[1] == "Deployment"@ && kinds[2] == "StatefulSet"@ && kinds[3] == "DaemonSet"@
        && kinds[4] == "Job"@ && kinds[5] == "CronJob"@ && kinds[6] == "ReplicaSet"@);
}

} // verus!
