//! The OpenAPI schema of a kind.
use crate::format::{pretty, write_pretty};
use crate::k8s::discovery::{builtin, lookup_builtin, GroupVersionKind, Gvk};
use crate::output::{bounded, BoundedWriter, Error, Outcome, Report};
use crate::text::{joined, joined_splits_back, lowered, pieces, quote, quoted, same, same_ignoring_case, split};
use crate::value::{
    array_of, at, get_at, items_of, list_of, members_of, object_of, opt, or_none, or_text, said, str_of, text_of,
    text_or, Json, JsonView,
};
use vstd::prelude::*;
use vstd::string::*;

verus! {

/// The arguments of the command.
#[derive(Debug)]
pub struct SchemaArgs {
    pub kind: String,
    pub group: Option<String>,
    pub version: Option<String>,
    pub limit: Option<usize>,
}

/// What `version/Kind` or `group/version/Kind` names; nothing where a part is empty.
pub open spec fn qualified(s: Seq<char>) -> Option<Gvk> {
    let parts = pieces(s, '/');
    if parts.len() == 2 && parts[0].len() > 0 && parts[1].len() > 0 {
        Some(Gvk { group: seq![], version: parts[0], kind: parts[1] })
    } else if parts.len() == 3 && parts[0].len() > 0 && parts[1].len() > 0 && parts[2].len() > 0 {
        Some(Gvk { group: parts[0], version: parts[1], kind: parts[2] })
    } else {
        None
    }
}

/// Reads `group/version/Kind`, or `version/Kind` for the core group.
pub fn parse_qualified(s: &str) -> (r: Option<GroupVersionKind>)
    ensures
        opt(r) == qualified(s@),
{
    let parts = split(s, '/');
    let ghost model = pieces(s@, '/');
    assert(model.len() == parts@.len());
    assert(forall|i: int| 0 <= i < model.len() ==> model[i] == #[trigger] parts@[i]@);
    if parts.len() == 2 && !parts[0].is_empty() && !parts[1].is_empty() {
        Some(
            GroupVersionKind { group: String::new(), version: parts[0].to_owned(), kind: parts[1].to_owned() },
        )
    } else if parts.len() == 3 && !parts[0].is_empty() && !parts[1].is_empty() && !parts[2].is_empty() {
        Some(
            GroupVersionKind {
                group: parts[0].to_owned(),
                version: parts[1].to_owned(),
                kind: parts[2].to_owned(),
            },
        )
    } else {
        None
    }
}

/// The kind that the arguments name, without a look at the cluster: by the group and version
/// given, else by the qualified form, else by the names of the common kinds.
pub open spec fn named_kind(args: &SchemaArgs) -> Option<Gvk> {
    match (args.group, args.version) {
        (Some(group), Some(version)) => Some(Gvk { group: group@, version: version@, kind: args.kind@ }),
        (None, None) => match qualified(args.kind@) {
            Some(gvk) => Some(gvk),
            None => builtin(args.kind@),
        },
        _ => None,
    }
}

/// Why the arguments name no kind.
pub open spec fn kind_refusal(args: &SchemaArgs) -> Seq<char> {
    if args.group is Some || args.version is Some {
        "--group and --version must be supplied together"@
    } else {
        "unknown kind "@ + quoted(args.kind@)
            + ": not in the builtin shortname table. Pass --group/--version, or use the fully qualified `group/version/Kind` form."@
    }
}

/// The kind that the arguments name.
pub fn resolve_gvk(args: &SchemaArgs) -> (r: Result<GroupVersionKind, Error>)
    ensures
        match r {
            Ok(gvk) => named_kind(args) == Some(gvk@),
            Err(e) => named_kind(args) is None && e.message@ == kind_refusal(args),
        },
{
    match (&args.group, &args.version) {
        (Some(group), Some(version)) => {
            return Ok(
                GroupVersionKind { group: group.clone(), version: version.clone(), kind: args.kind.clone() },
            );
        },
        (None, None) => {},
        _ => {
            return Err(Error { message: "--group and --version must be supplied together".to_owned() });
        },
    }
    if let Some(gvk) = parse_qualified(args.kind.as_str()) {
        return Ok(gvk);
    }
    match lookup_builtin(args.kind.as_str()) {
        Some(gvk) => Ok(gvk),
        None => {
            let mut message = "unknown kind ".to_owned();
            message.append(quote(args.kind.as_str()).as_str());
            message.append(
                ": not in the builtin shortname table. Pass --group/--version, or use the fully qualified `group/version/Kind` form.",
            );
            Err(Error { message })
        },
    }
}

/// The key of a group and version in the index of schemas.
pub open spec fn index_key(group: Seq<char>, version: Seq<char>) -> Seq<char> {
    if group.len() == 0 {
        "api/"@ + version
    } else {
        "apis/"@ + group + "/"@ + version
    }
}

/// The key of a group and version in the index of schemas.
pub fn openapi_path_key(group: &str, version: &str) -> (r: String)
    ensures
        r@ == index_key(group@, version@),
{
    if group.is_empty() {
        let mut out = "api/".to_owned();
        out.append(version);
        out
    } else {
        let mut out = "apis/".to_owned();
        out.append(group);
        out.append("/");
        out.append(version);
        out
    }
}

/// Whether one tag names the kind; the case of the kind does not matter.
pub open spec fn tag_names(tag: JsonView, gvk: Gvk) -> bool {
    &&& or_text(text_of(tag.get("group"@)), ""@) == gvk.group
    &&& or_text(text_of(tag.get("version"@)), ""@) == gvk.version
    &&& lowered(or_text(text_of(tag.get("kind"@)), ""@)) == lowered(gvk.kind)
}

/// Whether one of a schema's tags names the kind.
pub open spec fn describes(schema: JsonView, gvk: Gvk) -> bool {
    let tags = or_none(items_of(schema.get("x-kubernetes-group-version-kind"@)));
    exists|i: int| 0 <= i < tags.len() && tag_names(#[trigger] tags[i], gvk)
}

/// Whether one of a schema's tags names the kind.
pub fn schema_matches_gvk(schema: &Json, gvk: &GroupVersionKind) -> (r: bool)
    ensures
        r == describes(schema@, gvk@),
{
    let tags = match array_of(schema.get("x-kubernetes-group-version-kind")) {
        Some(tags) => tags,
        None => {
            return false;
        },
    };
    let ghost all = tags.deep_view();
    for i in 0..tags.len()
        invariant
            all == tags.deep_view(),
            all == or_none(items_of(schema@.get("x-kubernetes-group-version-kind"@))),
            forall|k: int| 0 <= k < i ==> !tag_names(#[trigger] all[k], gvk@),
    {
        let tag = &tags[i];
        assert(tag@ == all[i as int]);
        if same(text_or(str_of(tag.get("group")), ""), gvk.group.as_str()) && same(
            text_or(str_of(tag.get("version")), ""),
            gvk.version.as_str(),
        ) && same_ignoring_case(text_or(str_of(tag.get("kind")), ""), gvk.kind.as_str()) {
            return true;
        }
    }
    false
}

/// Where the index says that the schemas of a group and version are.
pub open spec fn document_at(index: JsonView, gvk: Gvk) -> Option<Seq<char>> {
    text_of(at(at(index.get("paths"@), index_key(gvk.group, gvk.version)), "serverRelativeURL"@))
}

/// Where the index says that the schemas of a kind's group and version are.
pub fn document_url(index: &Json, gvk: &GroupVersionKind) -> (r: Result<String, Error>)
    ensures
        match r {
            Ok(url) => document_at(index@, gvk@) == Some(url@),
            Err(e) => document_at(index@, gvk@) is None && e.message@
                == "apiserver does not expose group/version "@ + quoted(gvk@.group + "/"@ + gvk@.version)
                + " via OpenAPI v3 (looked for paths."@ + index_key(gvk@.group, gvk@.version)
                + ".serverRelativeURL in /openapi/v3)"@,
        },
{
    let key = openapi_path_key(gvk.group.as_str(), gvk.version.as_str());
    match str_of(get_at(get_at(index.get("paths"), key.as_str()), "serverRelativeURL")) {
        Some(url) => Ok(url.to_owned()),
        None => {
            let mut both = gvk.group.clone();
            both.append("/");
            both.append(gvk.version.as_str());
            let mut message = "apiserver does not expose group/version ".to_owned();
            message.append(quote(both.as_str()).as_str());
            message.append(" via OpenAPI v3 (looked for paths.");
            message.append(key.as_str());
            message.append(".serverRelativeURL in /openapi/v3)");
            Err(Error { message })
        },
    }
}

/// The first schema that describes the kind.
pub open spec fn first_describing(schemas: Seq<(Seq<char>, JsonView)>, gvk: Gvk) -> Option<JsonView>
    decreases schemas.len(),
{
    if schemas.len() == 0 {
        None
    } else if describes(schemas[0].1, gvk) {
        Some(schemas[0].1)
    } else {
        first_describing(schemas.drop_first(), gvk)
    }
}

/// The schemas of a document.
pub open spec fn schemas_of(doc: JsonView) -> Option<Seq<(Seq<char>, JsonView)>> {
    members_of(at(doc.get("components"@), "schemas"@))
}

fn find_schema<'a>(schemas: &'a Vec<(String, Json)>, gvk: &GroupVersionKind) -> (r: Option<&'a Json>)
    ensures
        opt(r) == first_describing(schemas.deep_view(), gvk@),
{
    let ghost all = schemas.deep_view();
    let mut i: usize = 0;
    assert(all.skip(0) =~= all);
    while i < schemas.len()
        invariant
            all == schemas.deep_view(),
            i <= schemas@.len(),
            first_describing(all, gvk@) == first_describing(all.skip(i as int), gvk@),
        decreases schemas@.len() - i,
    {
        assert(all.skip(i as int)[0].1 == schemas@[i as int].1@);
        assert(all.skip(i as int).drop_first() =~= all.skip(i + 1));
        if schema_matches_gvk(&schemas[i].1, gvk) {
            return Some(&schemas[i].1);
        }
        i += 1;
    }
    None
}

/// Why a document holds no schema of the kind.
pub open spec fn schema_refusal(doc: JsonView, gvk: Gvk) -> Seq<char> {
    if schemas_of(doc) is None {
        "OpenAPI document for "@ + gvk.group + "/"@ + gvk.version + " has no components.schemas"@
    } else {
        "kind "@ + quoted(gvk.kind) + " not found in OpenAPI document for "@ + gvk.group + "/"@ + gvk.version
            + " (no components.schemas entry has a matching x-kubernetes-group-version-kind)"@
    }
}

/// Prints the schema of a kind from the document of its group and version.
pub fn run(args: &SchemaArgs, gvk: &GroupVersionKind, doc: &Json) -> (r: Result<Report, Error>)
    ensures
        ({
            let found = match schemas_of(doc@) {
                Some(schemas) => first_describing(schemas, gvk@),
                None => None,
            };
            match r {
                Ok(report) => {
                    &&& found is Some
                    &&& report.outcome == Outcome::Found
                    &&& report.lines.deep_view() == bounded(pieces(pretty(found->0, ""@), '\n'), args.limit)
                },
                Err(e) => found is None && e.message@ == schema_refusal(doc@, gvk@),
            }
        }),
{
    let schemas = match object_of(get_at(doc.get("components"), "schemas")) {
        Some(schemas) => schemas,
        None => {
            let mut message = "OpenAPI document for ".to_owned();
            message.append(gvk.group.as_str());
            message.append("/");
            message.append(gvk.version.as_str());
            message.append(" has no components.schemas");
            return Err(Error { message });
        },
    };
    match find_schema(schemas, gvk) {
        Some(schema) => {
            let text = write_pretty(schema, "");
            let lines = split(text.as_str(), '\n');
            let rows = crate::text::owned(&lines);
            let mut writer = BoundedWriter::new(args.limit);
            writer.write_rows(rows);
            assert(writer@.lines =~= bounded(pieces(text@, '\n'), args.limit));
            Ok(Report { lines: writer.lines, outcome: Outcome::Found })
        },
        None => {
            let mut message = "kind ".to_owned();
            message.append(quote(gvk.kind.as_str()).as_str());
            message.append(" not found in OpenAPI document for ");
            message.append(gvk.group.as_str());
            message.append("/");
            message.append(gvk.version.as_str());
            message.append(" (no components.schemas entry has a matching x-kubernetes-group-version-kind)");
            Err(Error { message })
        },
    }
}

/// A group, a version and a kind are read from the name that is made of them, where none is empty
/// or holds a slash. Without the group it names a kind of the core group.
pub proof fn qualified_names_read_back(group: Seq<char>, version: Seq<char>, kind: Seq<char>)
    requires
        version.len() > 0 && !version.contains('/'),
        kind.len() > 0 && !kind.contains('/'),
        group.len() > 0 && !group.contains('/'),
    ensures
        qualified(joined(seq![group, version, kind], seq!['/'])) == Some(Gvk { group, version, kind }),
        qualified(joined(seq![version, kind], seq!['/'])) == Some(Gvk { group: seq![], version, kind }),
{
    joined_splits_back(seq![group, version, kind], '/');
    joined_splits_back(seq![version, kind], '/');
}

/// A tag names a kind where it gives its group and its version, each empty where not told, and its
/// kind, whatever the case.
pub open spec fn tagged(tag: JsonView, gvk: Gvk) -> bool {
    &&& said(tag.get("group"@), seq![]) == gvk.group
    &&& said(tag.get("version"@), seq![]) == gvk.version
    &&& lowered(said(tag.get("kind"@), seq![])) == lowered(gvk.kind)
}

/// The schema of a kind is the first that carries a tag of it, at any place in its list of tags,
/// and there is none where no schema carries one.
pub proof fn first_tagged_schema_is_found(schemas: Seq<(Seq<char>, JsonView)>, gvk: Gvk, i: int)
    ensures
        0 <= i < schemas.len() && carries(schemas[i].1, gvk) && (forall|k: int|
            0 <= k < i ==> !carries((#[trigger] schemas[k]).1, gvk)) ==> first_describing(schemas, gvk) == Some(
            schemas[i].1,
        ),
        (forall|k: int| 0 <= k < schemas.len() ==> !carries((#[trigger] schemas[k]).1, gvk)) ==> first_describing(
            schemas,
            gvk,
        ) is None,
    decreases schemas.len(),
{
    if schemas.len() > 0 {
        let rest = schemas.drop_first();
        tags_describe(schemas[0].1, gvk);
        first_tagged_schema_is_found(rest, gvk, i - 1);
        if 0 < i < schemas.len() && (forall|k: int| 0 <= k < i ==> !carries((#[trigger] schemas[k]).1, gvk)) {
            assert(!carries(schemas[0].1, gvk));
            assert(rest[i - 1] == schemas[i]);
            assert forall|k: int| 0 <= k < i - 1 implies !carries((#[trigger] rest[k]).1, gvk) by {
                assert(!carries(schemas[k + 1].1, gvk));
            }
        }
        if forall|k: int| 0 <= k < schemas.len() ==> !carries((#[trigger] schemas[k]).1, gvk) {
            assert(!carries(schemas[0].1, gvk));
            assert forall|k: int| 0 <= k < rest.len() implies !carries((#[trigger] rest[k]).1, gvk) by {
                assert(!carries(schemas[k + 1].1, gvk));
            }
        }
    }
}

/// A schema with a tag of the kind.
pub open spec fn carries(schema: JsonView, gvk: Gvk) -> bool {
    let tags = list_of(schema.get("x-kubernetes-group-version-kind"@));
    exists|i: int| 0 <= i < tags.len() && tagged(#[trigger] tags[i], gvk)
}

proof fn tags_describe(schema: JsonView, gvk: Gvk)
    ensures
        carries(schema, gvk) == describes(schema, gvk),
{
    reveal_strlit("");
    assert(""@ =~= seq![]);
    let tags = list_of(schema.get("x-kubernetes-group-version-kind"@));
    assert(tags == or_none(items_of(schema.get("x-kubernetes-group-version-kind"@))));
    if carries(schema, gvk) {
        let i = choose|i: int| 0 <= i < tags.len() && tagged(#[trigger] tags[i], gvk);
        assert(tag_names(tags[i], gvk));
    }
    if describes(schema, gvk) {
        let i = choose|i: int| 0 <= i < tags.len() && tag_names(#[trigger] tags[i], gvk);
        assert(tagged(tags[i], gvk));
    }
}

/// The document of a group and version is looked up in the index, under `apis/group/version`, and
/// under `api/version` for the core group.
pub proof fn documents_are_looked_up(index: JsonView, gvk: Gvk, paths: JsonView, entry: JsonView, url: Seq<char>)
    requires
        index.get("paths"@) == Some(paths),
    ensures
        gvk.group.len() == 0 && paths.get("api/"@ + gvk.version) == Some(entry) && entry.get("serverRelativeURL"@) == Some(
            JsonView::Text(url),
        ) ==> document_at(index, gvk) == Some(url),
        gvk.group.len() > 0 && paths.get("apis/"@ + gvk.group + "/"@ + gvk.version) == Some(entry) && entry.get(
            "serverRelativeURL"@,
        ) == Some(JsonView::Text(url)) ==> document_at(index, gvk) == Some(url),
        gvk.group.len() == 0 && paths.get("api/"@ + gvk.version) is None ==> document_at(index, gvk) is None,
        gvk.group.len() > 0 && paths.get("apis/"@ + gvk.group + "/"@ + gvk.version) is None ==> document_at(index, gvk)
            is None,
{
}

/// The documents of the core group stand under `api`, those of the named groups under `apis`, and no
/// two versions of a group share one.
pub proof fn groups_have_their_own_documents(group: Seq<char>, a: Seq<char>, b: Seq<char>)
    ensures
        index_key(seq![], a) == "api/"@ + a,
        group.len() > 0 ==> index_key(group, a) == "apis/"@ + group + "/"@ + a,
        index_key(group, a) == index_key(group, b) ==> a == b,
{
    let head = if group.len() == 0 {
        "api/"@
    } else {
        "apis/"@ + group + "/"@
    };
    assert(index_key(group, a).skip(head.len() as int) =~= a);
    assert(index_key(group, b).skip(head.len() as int) =~= b);
}

/// The group and the version given go with the kind as it stands; one without the other names none;
/// without either a qualified name stands for itself, and another for a common kind.
pub proof fn kinds_are_named_by_the_arguments(args: &SchemaArgs)
    ensures
        args.group is Some && args.version is Some ==> named_kind(args) == Some(
            Gvk { group: args.group->0@, version: args.version->0@, kind: args.kind@ },
        ),
        args.group is Some && args.version is None ==> named_kind(args) is None,
        args.group is None && args.version is Some ==> named_kind(args) is None,
        args.group is None && args.version is None && qualified(args.kind@) is Some ==> named_kind(args) == qualified(
            args.kind@,
        ),
        args.group is None && args.version is None && qualified(args.kind@) is None ==> named_kind(args) == builtin(
            args.kind@,
        ),
{
}

} // verus!
