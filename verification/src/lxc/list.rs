//! The instances of a daemon.
use super::client::{in_project, payload, project_path, with_recursion, LxcClient, LxcReply};
use crate::format::{compact, write_compact};
use crate::order::{
    sort, sorted, sorted_is_a_stable_sort, text_at_most, text_le, text_le_total, text_le_transitive, views,
    Ranked,
};
use crate::output::{report_rows, reports, Error, Outcome, Report};
use crate::text::{row, write_row};
use crate::value::{
    array_of, at, get_at, inner, is_text, items_of, list_of, members_of, object_of, opt, or_none, or_text, said,
    str_of, text_of, text_or, Json, JsonView,
};
use vstd::prelude::*;
use vstd::string::*;

verus! {

/// How rows are written.
#[derive(Clone, Copy, Debug, PartialEq, Eq, Structural)]
pub enum Format {
    /// Columns with tabs between them.
    Tsv,
    /// One JSON object per line.
    Json,
}

/// The arguments of the command.
#[derive(Debug)]
pub struct ListArgs {
    pub project: Option<String>,
    pub format: Format,
    pub limit: Option<usize>,
}

/// The first address of the family among those listed that is global.
pub open spec fn global_in(addresses: Seq<JsonView>, family: Seq<char>) -> Option<Seq<char>>
    decreases addresses.len(),
{
    if addresses.len() == 0 {
        None
    } else {
        let a = addresses[0];
        if text_of(a.get("family"@)) == Some(family) && text_of(a.get("scope"@)) == Some("global"@) && text_of(
            a.get("address"@),
        ) is Some {
            text_of(a.get("address"@))
        } else {
            global_in(addresses.drop_first(), family)
        }
    }
}

/// The first global address of the family on any of the interfaces, in their order.
pub open spec fn global_on(interfaces: Seq<(Seq<char>, JsonView)>, family: Seq<char>) -> Option<Seq<char>>
    decreases interfaces.len(),
{
    if interfaces.len() == 0 {
        None
    } else {
        match global_in(or_none(items_of(interfaces[0].1.get("addresses"@))), family) {
            Some(a) => Some(a),
            None => global_on(interfaces.drop_first(), family),
        }
    }
}

/// The first global address of the family that an instance has.
pub open spec fn global_address(item: JsonView, family: Seq<char>) -> Option<Seq<char>> {
    match members_of(at(item.get("state"@), "network"@)) {
        Some(interfaces) => global_on(interfaces, family),
        None => None,
    }
}

fn find_global_in<'a>(addresses: &'a Vec<Json>, family: &str) -> (r: Option<&'a str>)
    ensures
        opt(r) == global_in(addresses.deep_view(), family@),
{
    let ghost all = addresses.deep_view();
    let mut i: usize = 0;
    assert(all.skip(0) =~= all);
    while i < addresses.len()
        invariant
            all == addresses.deep_view(),
            i <= addresses@.len(),
            global_in(all, family@) == global_in(all.skip(i as int), family@),
        decreases addresses@.len() - i,
    {
        let a = &addresses[i];
        assert(all.skip(i as int)[0] == a@);
        assert(all.skip(i as int).drop_first() =~= all.skip(i + 1));
        if is_text(str_of(a.get("family")), family) && is_text(str_of(a.get("scope")), "global") {
            if let Some(t) = str_of(a.get("address")) {
                return Some(t);
            }
        }
        i += 1;
    }
    None
}

/// The first global address of the family that an instance has, on any interface.
pub fn first_global_address(item: &Json, family: &str) -> (r: Option<String>)
    ensures
        opt(r) == global_address(item@, family@),
{
    let interfaces = match object_of(get_at(item.get("state"), "network")) {
        Some(interfaces) => interfaces,
        None => {
            return None;
        },
    };
    let ghost all = interfaces.deep_view();
    let mut i: usize = 0;
    assert(all.skip(0) =~= all);
    while i < interfaces.len()
        invariant
            all == interfaces.deep_view(),
            i <= interfaces@.len(),
            global_address(item@, family@) == global_on(all.skip(i as int), family@),
        decreases interfaces@.len() - i,
    {
        let info = &interfaces[i].1;
        assert(all.skip(i as int)[0].1 == info@);
        assert(all.skip(i as int).drop_first() =~= all.skip(i + 1));
        if let Some(addresses) = array_of(info.get("addresses")) {
            if let Some(t) = find_global_in(addresses, family) {
                return Some(t.to_owned());
            }
        }
        i += 1;
    }
    None
}

/// The columns of an instance.
pub open spec fn instance_line(item: JsonView) -> Seq<char> {
    row(
        seq![
            or_text(text_of(item.get("name"@)), "-"@),
            or_text(text_of(item.get("type"@)), "-"@),
            or_text(text_of(item.get("status"@)), "-"@),
            or_text(global_address(item, "inet"@), "-"@),
            or_text(global_address(item, "inet6"@), "-"@),
        ],
    )
}

/// The columns of an instance.
pub fn format_row(item: &Json) -> (r: String)
    ensures
        r@ == instance_line(item@),
{
    let ipv4 = match first_global_address(item, "inet") {
        Some(a) => a,
        None => "-".to_owned(),
    };
    let ipv6 = match first_global_address(item, "inet6") {
        Some(a) => a,
        None => "-".to_owned(),
    };
    let fields = vec![
        text_or(str_of(item.get("name")), "-"),
        text_or(str_of(item.get("type")), "-"),
        text_or(str_of(item.get("status")), "-"),
        ipv4.as_str(),
        ipv6.as_str(),
    ];
    assert(fields.deep_view() =~= seq![
        or_text(text_of(item@.get("name"@)), "-"@),
        or_text(text_of(item@.get("type"@)), "-"@),
        or_text(text_of(item@.get("status"@)), "-"@),
        ipv4@,
        ipv6@,
    ]);
    write_row(&fields)
}

/// An instance, ordered by its name.
pub struct Instance {
    pub value: Json,
}

impl View for Instance {
    type V = JsonView;

    open spec fn view(&self) -> JsonView {
        self.value@
    }
}

pub open spec fn name_of(item: JsonView) -> Seq<char> {
    or_text(text_of(item.get("name"@)), ""@)
}

impl Ranked for Instance {
    open spec fn le(a: JsonView, b: JsonView) -> bool {
        text_le(name_of(a), name_of(b))
    }

    proof fn le_total(a: JsonView, b: JsonView) {
        text_le_total(name_of(a), name_of(b));
    }

    proof fn le_transitive(a: JsonView, b: JsonView, c: JsonView) {
        text_le_transitive(name_of(a), name_of(b), name_of(c));
    }

    fn at_most(&self, other: &Self) -> (r: bool) {
        text_at_most(text_or(str_of(self.value.get("name")), ""), text_or(str_of(other.value.get("name")), ""))
    }
}

/// The row of an instance in the given format.
pub open spec fn instance_row(item: JsonView, format: Format) -> Seq<char> {
    match format {
        Format::Tsv => instance_line(item),
        Format::Json => compact(item),
    }
}

/// The path of the instances.
pub open spec fn instances_path(project: Option<Seq<char>>) -> Seq<char> {
    in_project("/1.0/instances"@, project)
}

/// The path of the instances; it is asked for with a recursion depth of two.
pub fn request_path(args: &ListArgs) -> (r: String)
    ensures
        r@ == instances_path(opt(args.project)),
{
    project_path("/1.0/instances", &args.project)
}

/// The rows of the instances by name.
pub open spec fn instance_rows(items: Seq<JsonView>, format: Format) -> Seq<Seq<char>> {
    let all = sorted::<Instance>(items);
    Seq::new(all.len(), |i: int| instance_row(all[i], format))
}

fn sort_instances(items: Vec<Json>) -> (r: Vec<Instance>)
    ensures
        views(r@) == sorted::<Instance>(items.deep_view()),
{
    let ghost all = items.deep_view();
    let mut out: Vec<Instance> = Vec::new();
    for value in it: items
        invariant
            it.seq() == items@,
            all == items.deep_view(),
            views(out@) =~= all.take(it.index()),
    {
        let ghost before = views(out@);
        let ghost v = value@;
        out.push(Instance { value });
        assert(views(out@) =~= before.push(v));
    }
    assert(all.take(all.len() as int) =~= all);
    sort(out)
}

/// Why a payload is refused that is no array.
pub open spec fn not_an_array(path: Seq<char>) -> Seq<char> {
    "LXD response for "@ + path + " was not an array"@
}

/// Lists the instances from the daemon's reply to the request for their path.
pub fn run(args: &ListArgs, client: &LxcClient, reply: &LxcReply) -> (r: Result<Report, Error>)
    ensures
        match payload(with_recursion(instances_path(opt(args.project)), 2), *reply) {
            Err(m) => r is Err && r->Err_0.message@ == m,
            Ok(None) => r is Ok && r->Ok_0.outcome == Outcome::NotFound && r->Ok_0.lines@.len() == 0,
            Ok(Some(v)) => match v.items() {
                Some(items) => r is Ok && reports(r->Ok_0, instance_rows(items, args.format), args.limit),
                None => r is Err && r->Err_0.message@ == not_an_array(instances_path(opt(args.project))),
            },
        },
{
    let path = request_path(args);
    let found = match client.get_json_recursive(path.as_str(), 2, reply) {
        Ok(Some(found)) => found,
        Ok(None) => {
            return Ok(Report { lines: Vec::new(), outcome: Outcome::NotFound });
        },
        Err(e) => {
            return Err(e);
        },
    };
    let ghost items_model = found@.items();
    match found {
        Json::Array(items) => {
            assert(items_model->0 =~= items.deep_view());
            let all = sort_instances(items);
            let ghost rows = instance_rows(items_model->0, args.format);
            let mut lines: Vec<String> = Vec::new();
            for i in 0..all.len()
                invariant
                    items_model is Some,
                    views(all@) == sorted::<Instance>(items_model->0),
                    rows == instance_rows(items_model->0, args.format),
                    lines.deep_view() =~= rows.take(i as int),
            {
                let ghost before = lines.deep_view();
                assert(views(all@)[i as int] == all@[i as int].value@);
                let line = match args.format {
                    Format::Tsv => format_row(&all[i].value),
                    Format::Json => write_compact(&all[i].value),
                };
                assert(line@ == rows[i as int]);
                lines.push(line);
                assert(lines.deep_view() =~= before.push(line@));
            }
            assert(rows.take(rows.len() as int) =~= rows);
            Ok(report_rows(lines, args.limit))
        },
        _ => {
            let mut message = "LXD response for ".to_owned();
            message.append(path.as_str());
            message.append(" was not an array");
            Err(Error { message })
        },
    }
}

/// An address that counts for a family: of that family, of global scope, and told.
pub open spec fn is_global(a: JsonView, family: Seq<char>, text: Seq<char>) -> bool {
    &&& a.get("family"@) == Some(JsonView::Text(family))
    &&& a.get("scope"@) == Some(JsonView::Text("global"@))
    &&& a.get("address"@) == Some(JsonView::Text(text))
}

/// The addresses of an interface.
pub open spec fn addresses_of(interface: JsonView) -> Seq<JsonView> {
    list_of(interface.get("addresses"@))
}

/// No address of the list counts for the family.
pub open spec fn none_global(addresses: Seq<JsonView>, family: Seq<char>) -> bool {
    forall|k: int, t: Seq<char>| 0 <= k < addresses.len() ==> !#[trigger] is_global(addresses[k], family, t)
}

proof fn first_global_counts(addresses: Seq<JsonView>, family: Seq<char>, i: int, t: Seq<char>)
    ensures
        0 <= i < addresses.len() && is_global(addresses[i], family, t) && none_global(addresses.take(i), family)
            ==> global_in(addresses, family) == Some(t),
        none_global(addresses, family) ==> global_in(addresses, family) is None,
    decreases addresses.len(),
{
    if addresses.len() > 0 {
        let rest = addresses.drop_first();
        first_global_counts(rest, family, i - 1, t);
        if 0 < i < addresses.len() && is_global(addresses[i], family, t) && none_global(addresses.take(i), family) {
            assert(rest[i - 1] == addresses[i]);
            assert forall|u: Seq<char>| !#[trigger] is_global(addresses[0], family, u) by {
                assert(!is_global(addresses.take(i)[0], family, u));
            }
            assert(none_global(rest.take(i - 1), family)) by {
                assert forall|k: int, u: Seq<char>| 0 <= k < i - 1 implies !#[trigger] is_global(
                    rest.take(i - 1)[k],
                    family,
                    u,
                ) by {
                    assert(!is_global(addresses.take(i)[k + 1], family, u));
                }
            }
            if text_of(addresses[0].get("address"@)) is Some {
                assert(!is_global(addresses[0], family, text_of(addresses[0].get("address"@))->0));
            }
        }
        if none_global(addresses, family) {
            assert(none_global(rest, family)) by {
                assert forall|k: int, u: Seq<char>| 0 <= k < rest.len() implies !#[trigger] is_global(rest[k], family, u) by {
                    assert(!is_global(addresses[k + 1], family, u));
                }
            }
            if text_of(addresses[0].get("address"@)) is Some {
                assert(!is_global(addresses[0], family, text_of(addresses[0].get("address"@))->0));
            }
        }
    }
}

/// The address of an instance for a family is the first that counts on the first interface that has
/// one; interfaces without one are passed over, and there is none where no interface has one.
pub proof fn first_global_address_is_shown(
    item: JsonView,
    interfaces: Seq<(Seq<char>, JsonView)>,
    n: int,
    i: int,
    family: Seq<char>,
    t: Seq<char>,
)
    requires
        inner(item, "state"@, "network"@) == Some(JsonView::Object(interfaces)),
    ensures
        0 <= n < interfaces.len() && 0 <= i < addresses_of(interfaces[n].1).len() && is_global(
            addresses_of(interfaces[n].1)[i],
            family,
            t,
        ) && none_global(addresses_of(interfaces[n].1).take(i), family) && (forall|k: int|
            0 <= k < n ==> none_global(addresses_of((#[trigger] interfaces[k]).1), family)) ==> global_address(item, family)
            == Some(t),
        (forall|k: int| 0 <= k < interfaces.len() ==> none_global(addresses_of((#[trigger] interfaces[k]).1), family))
            ==> global_address(item, family) is None,
{
    first_interface_counts(interfaces, n, i, family, t);
}

proof fn first_interface_counts(interfaces: Seq<(Seq<char>, JsonView)>, n: int, i: int, family: Seq<char>, t: Seq<char>)
    ensures
        0 <= n < interfaces.len() && 0 <= i < addresses_of(interfaces[n].1).len() && is_global(
            addresses_of(interfaces[n].1)[i],
            family,
            t,
        ) && none_global(addresses_of(interfaces[n].1).take(i), family) && (forall|k: int|
            0 <= k < n ==> none_global(addresses_of((#[trigger] interfaces[k]).1), family)) ==> global_on(
            interfaces,
            family,
        ) == Some(t),
        (forall|k: int| 0 <= k < interfaces.len() ==> none_global(addresses_of((#[trigger] interfaces[k]).1), family))
            ==> global_on(interfaces, family) is None,
    decreases interfaces.len(),
{
    if interfaces.len() > 0 {
        let rest = interfaces.drop_first();
        let here = addresses_of(interfaces[0].1);
        first_interface_counts(rest, n - 1, i, family, t);
        first_global_counts(here, family, i, t);
        if 0 < n < interfaces.len() && (forall|k: int|
            0 <= k < n ==> none_global(addresses_of((#[trigger] interfaces[k]).1), family)) {
            assert(none_global(addresses_of(interfaces[0].1), family));
            assert(rest[n - 1] == interfaces[n]);
            assert forall|k: int| 0 <= k < n - 1 implies none_global(addresses_of((#[trigger] rest[k]).1), family) by {
                assert(none_global(addresses_of(interfaces[k + 1].1), family));
            }
        }
        if forall|k: int| 0 <= k < interfaces.len() ==> none_global(addresses_of((#[trigger] interfaces[k]).1), family) {
            assert(none_global(addresses_of(interfaces[0].1), family));
            assert forall|k: int| 0 <= k < rest.len() implies none_global(addresses_of((#[trigger] rest[k]).1), family) by {
                assert(none_global(addresses_of(interfaces[k + 1].1), family));
            }
        }
    }
}

/// The row of an instance shows its name, type and status, `-` where not told, and its addresses of
/// the fourth and the sixth version, `-` where it has none. Instances come by name.
pub proof fn instances_are_shown_by_name(items: Seq<JsonView>, item: JsonView, i: int, j: int)
    ensures
        ({
            let ipv4 = match global_address(item, "inet"@) {
                Some(a) => a,
                None => "-"@,
            };
            let ipv6 = match global_address(item, "inet6"@) {
                Some(a) => a,
                None => "-"@,
            };
            instance_line(item) == row(
                seq![
                    said(item.get("name"@), "-"@),
                    said(item.get("type"@), "-"@),
                    said(item.get("status"@), "-"@),
                    ipv4,
                    ipv6,
                ],
            )
        }),
        sorted::<Instance>(items).to_multiset() == items.to_multiset(),
        0 <= i < j < sorted::<Instance>(items).len() ==> text_le(
            said(sorted::<Instance>(items)[i].get("name"@), ""@),
            said(sorted::<Instance>(items)[j].get("name"@), ""@),
        ),
{
    sorted_is_a_stable_sort::<Instance>(items);
    if 0 <= i < j < sorted::<Instance>(items).len() {
        assert(Instance::le(sorted::<Instance>(items)[i], sorted::<Instance>(items)[j]));
    }
}

/// Instances are asked for at one place, in a project where one is given.
pub proof fn instances_are_asked_for_by_project(project: Seq<char>)
    ensures
        instances_path(None) == "/1.0/instances"@,
        instances_path(Some(project)) == "/1.0/instances?project="@ + project,
{
    reveal_strlit("/1.0/instances");
    reveal_strlit("?project=");
    reveal_strlit("/1.0/instances?project=");
    assert("/1.0/instances"@ + "?project="@ =~= "/1.0/instances?project="@);
}

} // verus!
