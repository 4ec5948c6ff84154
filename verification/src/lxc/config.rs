//! How one instance is configured.
use super::client::{payload, LxcClient, LxcReply};
use super::info::{instance_path, write_instance_path};
use crate::format::{format_value, formatted, pretty, write_pretty};
use crate::output::{report_rows, reports, Error, Outcome, Report};
use crate::path::{bad_path, resolve_expression, resolved, steps};
use crate::text::{lines, owned, pieces, split, split_lines};
use crate::value::{member, opt, Json, JsonView};
use vstd::prelude::*;

verus! {

/// The arguments of the command.
#[derive(Debug)]
pub struct ConfigArgs {
    pub name: String,
    pub project: Option<String>,
    pub path: Option<String>,
    pub limit: Option<usize>,
}

/// The member of that name, where there is one.
pub open spec fn kept(v: JsonView, key: Seq<char>) -> Seq<(Seq<char>, JsonView)> {
    match v.get(key) {
        Some(m) => seq![(key, m)],
        None => seq![],
    }
}

/// The members of an instance that say how it is configured, by name; those that it lacks are
/// left out.
pub open spec fn subset(v: JsonView) -> JsonView {
    JsonView::Object(
        kept(v, "config"@) + kept(v, "devices"@) + kept(v, "expanded_config"@) + kept(v, "expanded_devices"@) + kept(
            v,
            "profiles"@,
        ),
    )
}

fn keep(out: &mut Vec<(String, Json)>, v: &Json, key: &str)
    ensures
        final(out).deep_view() == old(out).deep_view() + kept(v@, key@),
{
    let ghost before = out.deep_view();
    match v.get(key) {
        Some(m) => {
            let copy = m.copy();
            let ghost entry = (key@, copy@);
            out.push((key.to_owned(), copy));
            assert(out.deep_view() =~= before + seq![entry]);
        },
        None => {
            assert(out.deep_view() =~= before + seq![]);
        },
    }
}

/// The members of an instance that say how it is configured.
pub fn config_subset(metadata: &Json) -> (r: Json)
    ensures
        r@ == subset(metadata@),
{
    let mut out: Vec<(String, Json)> = Vec::new();
    assert(out.deep_view() =~= seq![]);
    keep(&mut out, metadata, "config");
    keep(&mut out, metadata, "devices");
    keep(&mut out, metadata, "expanded_config");
    keep(&mut out, metadata, "expanded_devices");
    keep(&mut out, metadata, "profiles");
    let r = Json::Object(out);
    assert(r@->Object_0 =~= out.deep_view());
    assert(seq![] + kept(metadata@, "config"@) =~= kept(metadata@, "config"@));
    r
}

/// Shows how an instance is configured, or one part of that, from the daemon's reply to the
/// request for its path.
pub fn run(args: &ConfigArgs, client: &LxcClient, reply: &LxcReply) -> (r: Result<Report, Error>)
    ensures
        match payload(instance_path(args.name@, opt(args.project)), *reply) {
            Err(m) => r is Err && r->Err_0.message@ == m,
            Ok(None) => r is Ok && r->Ok_0.outcome == Outcome::NotFound && r->Ok_0.lines@.len() == 0,
            Ok(Some(v)) => match args.path {
                None => r is Ok && reports(r->Ok_0, lines(pretty(subset(v), ""@)), args.limit),
                Some(expr) => if steps(expr@) is None {
                    r is Err && r->Err_0.message@ == bad_path(expr@)
                } else {
                    r is Ok && reports(
                        r->Ok_0,
                        match resolved(subset(v), expr@) {
                            Some(found) => pieces(formatted(found, false, true), '\n'),
                            None => seq![],
                        },
                        args.limit,
                    )
                },
            },
        },
{
    let path = write_instance_path(args.name.as_str(), &args.project);
    let found = match client.get_json(path.as_str(), reply) {
        Ok(Some(found)) => found,
        Ok(None) => {
            return Ok(Report { lines: Vec::new(), outcome: Outcome::NotFound });
        },
        Err(e) => {
            return Err(e);
        },
    };
    let part = config_subset(&found);
    match &args.path {
        Some(expr) => match resolve_expression(&part, expr.as_str()) {
            Ok(Some(v)) => {
                let text = format_value(v, false, true);
                Ok(report_rows(owned(&split(text.as_str(), '\n')), args.limit))
            },
            Ok(None) => {
                let none: Vec<String> = Vec::new();
                assert(none.deep_view() =~= seq![]);
                Ok(report_rows(none, args.limit))
            },
            Err(e) => Err(e),
        },
        None => {
            let text = write_pretty(&part, "");
            Ok(report_rows(owned(&split_lines(text.as_str())), args.limit))
        },
    }
}

proof fn config_keys_differ()
    ensures
        "config"@ != "devices"@,
        "config"@ != "expanded_config"@,
        "config"@ != "expanded_devices"@,
        "config"@ != "profiles"@,
        "devices"@ != "expanded_config"@,
        "devices"@ != "expanded_devices"@,
        "devices"@ != "profiles"@,
        "expanded_config"@ != "expanded_devices"@,
        "expanded_config"@ != "profiles"@,
        "expanded_devices"@ != "profiles"@,
{
    reveal_strlit("config");
    reveal_strlit("devices");
    reveal_strlit("expanded_config");
    reveal_strlit("expanded_devices");
    reveal_strlit("profiles");
    assert("config"@.len() == 6 && "devices"@.len() == 7 && "expanded_config"@.len() == 15
        && "expanded_devices"@.len() == 16 && "profiles"@.len() == 8);
}

/// A member is found behind members of other names.
proof fn member_behind(a: Seq<(Seq<char>, JsonView)>, b: Seq<(Seq<char>, JsonView)>, key: Seq<char>)
    requires
        forall|i: int| 0 <= i < a.len() ==> (#[trigger] a[i]).0 != key,
    ensures
        member(a + b, key) == member(b, key),
    decreases a.len(),
{
    if a.len() == 0 {
        assert(a + b =~= b);
    } else {
        assert((a + b).drop_first() =~= a.drop_first() + b);
        assert(a[0].0 != key);
        member_behind(a.drop_first(), b, key);
    }
}

/// A member is found in front of members of other names.
proof fn member_in_front(a: Seq<(Seq<char>, JsonView)>, b: Seq<(Seq<char>, JsonView)>, key: Seq<char>)
    requires
        forall|i: int| 0 <= i < b.len() ==> (#[trigger] b[i]).0 != key,
    ensures
        member(a + b, key) == member(a, key),
    decreases a.len() + b.len(),
{
    if a.len() == 0 {
        assert(a + b =~= b);
        if b.len() > 0 {
            assert(b[0].0 != key);
            member_in_front(a, b.drop_first(), key);
            assert(a + b.drop_first() =~= b.drop_first());
        }
    } else {
        assert((a + b).drop_first() =~= a.drop_first() + b);
        if a[0].0 != key {
            member_in_front(a.drop_first(), b, key);
        }
    }
}

/// What is kept under its own name is found under it.
proof fn kept_is_found(v: JsonView, key: Seq<char>)
    ensures
        member(kept(v, key), key) == v.get(key),
{
    if v.get(key) is None {
        assert(kept(v, key) =~= seq![]);
    }
}

/// The configuration of an instance has the members of the instance under the five names that
/// say how it is configured and no others, and is its own configuration.
pub proof fn subset_keeps_the_configuration(v: JsonView)
    ensures
        subset(v).get("config"@) == v.get("config"@),
        subset(v).get("devices"@) == v.get("devices"@),
        subset(v).get("expanded_config"@) == v.get("expanded_config"@),
        subset(v).get("expanded_devices"@) == v.get("expanded_devices"@),
        subset(v).get("profiles"@) == v.get("profiles"@),
        forall|key: Seq<char>|
            key != "config"@ && key != "devices"@ && key != "expanded_config"@ && key != "expanded_devices"@ && key
                != "profiles"@ ==> #[trigger] subset(v).get(key) is None,
        subset(subset(v)) == subset(v),
{
    config_keys_differ();
    let a = kept(v, "config"@);
    let b = kept(v, "devices"@);
    let c = kept(v, "expanded_config"@);
    let d = kept(v, "expanded_devices"@);
    let e = kept(v, "profiles"@);
    kept_is_found(v, "config"@);
    kept_is_found(v, "devices"@);
    kept_is_found(v, "expanded_config"@);
    kept_is_found(v, "expanded_devices"@);
    kept_is_found(v, "profiles"@);
    member_in_front(a + b + c + d, e, "config"@);
    member_in_front(a + b + c, d, "config"@);
    member_in_front(a + b, c, "config"@);
    member_in_front(a, b, "config"@);
    member_in_front(a + b + c + d, e, "devices"@);
    member_in_front(a + b + c, d, "devices"@);
    member_in_front(a + b, c, "devices"@);
    member_behind(a, b, "devices"@);
    member_in_front(a + b + c + d, e, "expanded_config"@);
    member_in_front(a + b + c, d, "expanded_config"@);
    member_behind(a + b, c, "expanded_config"@);
    member_in_front(a + b + c + d, e, "expanded_devices"@);
    member_behind(a + b + c, d, "expanded_devices"@);
    member_behind(a + b + c + d, e, "profiles"@);
    assert forall|key: Seq<char>|
        key != "config"@ && key != "devices"@ && key != "expanded_config"@ && key != "expanded_devices"@ && key
            != "profiles"@ implies #[trigger] subset(v).get(key) is None by {
        let none = Seq::<(Seq<char>, JsonView)>::empty();
        let all = a + b + c + d + e;
        assert(all + none =~= all);
        member_behind(all, none, key);
    }
}

} // verus!
