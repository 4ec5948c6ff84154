//! One object in five sections: itself, its status, its containers, its owners, its events.
use crate::clock::unix_seconds;
use crate::k8s::containers::{walk_containers, walked, ContainerModel, ContainerView};
use crate::k8s::events::{event_rows, fetch_events_for, EventRow};
use crate::k8s::podtable::{instant, parse_rfc3339_utc};
use crate::number::{decimal, write_u64};
use crate::order::{
    lines_of, render_all, sort, sorted, sorted_holds, sorted_is_a_stable_sort, text_le, views, Pair, Ranked,
};
use crate::output::{collapse_newlines, on_one_line, BoundedWriter, Outcome, Page, Report};
use crate::text::{row, write_row};
use crate::value::{
    array_of, at, bool_of, boolean_of, get_at, inner, is_text, items_of, list_of, members_of, object_of, opt, or_none,
    or_text, said, str_of, text_of, text_or, u64_of, unsigned_of, Json, JsonView,
};
use vstd::prelude::*;
use vstd::string::*;

verus! {

/// How many owners are followed, one above the other.
pub const MAX_OWNER_HOPS: usize = 5;

/// How many events are shown, whatever the limit.
pub const MAX_EVENTS: usize = 10;

/// The arguments of the command.
#[derive(Debug)]
pub struct DescribeArgs {
    pub kind: String,
    pub name: String,
    pub namespace: Option<String>,
    pub limit: Option<usize>,
}

/// The second, counted from the start of 1970, that `YYYY-MM-DDTHH:MM:SS[.frac]Z` names.
pub fn parse_rfc3339_utc_seconds(s: &str) -> (r: Option<i64>)
    ensures
        match r {
            Some(n) => instant(s@) == Some(n as int),
            None => instant(s@) is None,
        },
{
    parse_rfc3339_utc(s)
}

/// The age at `now`, in its largest whole unit: days, hours, minutes or seconds. `-` for a
/// time of another shape; nothing has a negative age.
pub open spec fn coarse_age(ts: Seq<char>, now: int) -> Seq<char> {
    match instant(ts) {
        None => "-"@,
        Some(start) => {
            let dt = (now - start) as nat;
            if now < start {
                "0s"@
            } else if dt >= 86400 {
                decimal(dt / 86400) + "d"@
            } else if dt >= 3600 {
                decimal(dt / 3600) + "h"@
            } else if dt >= 60 {
                decimal(dt / 60) + "m"@
            } else {
                decimal(dt) + "s"@
            }
        },
    }
}

/// The age at `now` of what was created at `ts`.
pub fn humanize_age_at(ts: &str, now: u64) -> (r: String)
    ensures
        r@ == coarse_age(ts@, now as int),
{
    let start: i64 = match parse_rfc3339_utc_seconds(ts) {
        Some(start) => start,
        None => {
            return "-".to_owned();
        },
    };
    let elapsed: i128 = now as i128 - start as i128;
    if elapsed < 0 {
        return "0s".to_owned();
    }
    let (count, unit): (i128, &str) = if elapsed >= 86400 {
        (elapsed / 86400, "d")
    } else if elapsed >= 3600 {
        (elapsed / 3600, "h")
    } else if elapsed >= 60 {
        (elapsed / 60, "m")
    } else {
        (elapsed, "s")
    };
    let mut out = write_u64(count as u64);
    out.append(unit);
    out
}

/// The age now of what was created at `ts`.
pub fn humanize_age(ts: &str) -> (r: String)
    ensures
        exists|now: u64| r@ == #[trigger] coarse_age(ts@, now as int),
        instant(ts@) is None ==> r@ == "-"@,
{
    let now: u64 = unix_seconds();
    humanize_age_at(ts, now)
}

/// The members of an object as tags, by key; a value that is no text counts as empty.
pub open spec fn tags(members: Seq<(Seq<char>, JsonView)>) -> Seq<(Seq<char>, Seq<char>)> {
    sorted::<Pair>(Seq::new(members.len(), |i: int| (members[i].0, or_text(members[i].1.text(), ""@))))
}

fn sorted_tags(members: &Vec<(String, Json)>) -> (r: Vec<Pair>)
    ensures
        views(r@) == tags(members.deep_view()),
{
    let ghost all = members.deep_view();
    let ghost pairs = Seq::new(all.len(), |i: int| (all[i].0, or_text(all[i].1.text(), ""@)));
    let mut out: Vec<Pair> = Vec::new();
    for i in 0..members.len()
        invariant
            all == members.deep_view(),
            pairs == Seq::new(all.len(), |i: int| (all[i].0, or_text(all[i].1.text(), ""@))),
            views(out@) =~= pairs.take(i as int),
    {
        let ghost before = views(out@);
        let (key, value) = &members[i];
        let tag = Pair { key: key.clone(), value: text_or(value.as_str(), "").to_owned() };
        assert(all[i as int] == (key@, value@));
        out.push(tag);
        assert(views(out@) =~= before.push(tag@));
    }
    assert(pairs.take(all.len() as int) =~= pairs);
    sort(out)
}

pub open spec fn label_lines(members: Seq<(Seq<char>, JsonView)>) -> Seq<Seq<char>> {
    let all = tags(members);
    Seq::new(all.len(), |i: int| "label\t"@ + all[i].0 + "="@ + all[i].1)
}

pub open spec fn annotation_lines(members: Seq<(Seq<char>, JsonView)>) -> Seq<Seq<char>> {
    let all = tags(members);
    Seq::new(all.len(), |i: int| "annotation\t"@ + all[i].0 + "="@ + on_one_line(all[i].1))
}

pub open spec fn optional_line(head: Seq<char>, t: Option<Seq<char>>) -> Seq<Seq<char>> {
    match t {
        Some(t) => seq![head + t],
        None => seq![],
    }
}

/// The rows on the object itself: its name, namespace and age where given, its labels and
/// annotations by key.
pub open spec fn object_rows(value: JsonView, kind_name: Seq<char>, now: int) -> Seq<Seq<char>> {
    let metadata = value.get("metadata"@);
    let age = match text_of(at(metadata, "creationTimestamp"@)) {
        Some(ts) => Some(coarse_age(ts, now)),
        None => None,
    };
    seq!["kind/name\t"@ + kind_name] + optional_line("namespace\t"@, text_of(at(metadata, "namespace"@)))
        + optional_line("age\t"@, age) + match members_of(at(metadata, "labels"@)) {
        Some(members) => label_lines(members),
        None => seq![],
    } + match members_of(at(metadata, "annotations"@)) {
        Some(members) => annotation_lines(members),
        None => seq![],
    }
}

fn prefixed(head: &str, t: &str) -> (r: String)
    ensures
        r@ == head@ + t@,
{
    let mut out = head.to_owned();
    out.append(t);
    out
}

fn tag_lines(head: &str, members: &Vec<(String, Json)>, one_line: bool) -> (r: Vec<String>)
    ensures
        r@.len() == tags(members.deep_view()).len(),
        forall|i: int|
            0 <= i < r@.len() ==> (#[trigger] r@[i])@ == head@ + tags(members.deep_view())[i].0 + "="@ + if one_line {
                on_one_line(tags(members.deep_view())[i].1)
            } else {
                tags(members.deep_view())[i].1
            },
{
    let all = sorted_tags(members);
    let ghost model = tags(members.deep_view());
    let mut out: Vec<String> = Vec::new();
    for i in 0..all.len()
        invariant
            views(all@) == model,
            out@.len() == i,
            forall|k: int|
                0 <= k < i ==> (#[trigger] out@[k])@ == head@ + model[k].0 + "="@ + if one_line {
                    on_one_line(model[k].1)
                } else {
                    model[k].1
                },
    {
        assert(model[i as int] == all@[i as int]@);
        let mut line = prefixed(head, all[i].key.as_str());
        line.append("=");
        if one_line {
            line.append(collapse_newlines(all[i].value.as_str()).as_str());
        } else {
            line.append(all[i].value.as_str());
        }
        out.push(line);
    }
    out
}

/// Writes the rows on the object itself.
pub fn write_object_section(writer: &mut BoundedWriter, value: &Json, kind_name: &str, now: u64)
    ensures
        final(writer)@ == old(writer)@.with_rows(object_rows(value@, kind_name@, now as int)),
{
    let metadata = value.get("metadata");
    let mut rows: Vec<String> = Vec::new();
    rows.push(prefixed("kind/name\t", kind_name));
    let ghost part1 = seq!["kind/name\t"@ + kind_name@];
    assert(rows.deep_view() =~= part1);
    let namespace = str_of(get_at(metadata, "namespace"));
    let ghost part2 = part1 + optional_line("namespace\t"@, opt(namespace));
    if let Some(ns) = namespace {
        rows.push(prefixed("namespace\t", ns));
    }
    assert(rows.deep_view() =~= part2);
    let creation = str_of(get_at(metadata, "creationTimestamp"));
    let ghost age = match opt(creation) {
        Some(ts) => Some(coarse_age(ts, now as int)),
        None => None,
    };
    let ghost part3 = part2 + optional_line("age\t"@, age);
    if let Some(ts) = creation {
        rows.push(prefixed("age\t", humanize_age_at(ts, now).as_str()));
    }
    assert(rows.deep_view() =~= part3);
    let ghost labels = match members_of(at(opt(metadata), "labels"@)) {
        Some(members) => label_lines(members),
        None => seq![],
    };
    if let Some(members) = object_of(get_at(metadata, "labels")) {
        let mut lines = tag_lines("label\t", members, false);
        assert(lines.deep_view() =~= labels);
        rows.append(&mut lines);
    }
    assert(rows.deep_view() =~= part3 + labels);
    let ghost annotations = match members_of(at(opt(metadata), "annotations"@)) {
        Some(members) => annotation_lines(members),
        None => seq![],
    };
    if let Some(members) = object_of(get_at(metadata, "annotations")) {
        let mut lines = tag_lines("annotation\t", members, true);
        assert(lines.deep_view() =~= annotations);
        rows.append(&mut lines);
    }
    assert(rows.deep_view() =~= part3 + labels + annotations);
    writer.write_rows(rows);
}

/// The row of one condition.
pub open spec fn condition_line(c: JsonView) -> Seq<char> {
    row(
        seq![
            or_text(text_of(c.get("type"@)), "-"@),
            or_text(text_of(c.get("status"@)), "-"@),
            or_text(text_of(c.get("reason"@)), "-"@),
            on_one_line(or_text(text_of(c.get("message"@)), ""@)),
        ],
    )
}

/// The rows on an object's status: its phase where given, and its conditions.
pub open spec fn status_rows(value: JsonView) -> Seq<Seq<char>> {
    let status = value.get("status"@);
    let conditions = or_none(items_of(at(status, "conditions"@)));
    optional_line("phase\t"@, text_of(at(status, "phase"@))) + Seq::new(
        conditions.len(),
        |i: int| condition_line(conditions[i]),
    )
}

fn condition_row(c: &Json) -> (r: String)
    ensures
        r@ == condition_line(c@),
{
    let message = collapse_newlines(text_or(str_of(c.get("message")), ""));
    let fields = vec![
        text_or(str_of(c.get("type")), "-"),
        text_or(str_of(c.get("status")), "-"),
        text_or(str_of(c.get("reason")), "-"),
        message.as_str(),
    ];
    assert(fields.deep_view() =~= seq![
        or_text(text_of(c@.get("type"@)), "-"@),
        or_text(text_of(c@.get("status"@)), "-"@),
        or_text(text_of(c@.get("reason"@)), "-"@),
        message@,
    ]);
    write_row(&fields)
}

/// Writes the rows on an object's status.
pub fn write_status_section(writer: &mut BoundedWriter, value: &Json)
    ensures
        final(writer)@ == old(writer)@.with_rows(status_rows(value@)),
{
    let status = value.get("status");
    let mut rows: Vec<String> = Vec::new();
    let phase = str_of(get_at(status, "phase"));
    let ghost head = optional_line("phase\t"@, opt(phase));
    if let Some(phase) = phase {
        rows.push(prefixed("phase\t", phase));
    }
    assert(rows.deep_view() =~= head);
    if let Some(conditions) = array_of(get_at(status, "conditions")) {
        let ghost all = conditions.deep_view();
        for i in 0..conditions.len()
            invariant
                all == conditions.deep_view(),
                rows.deep_view() =~= head + Seq::new(i as nat, |k: int| condition_line(all[k])),
        {
            let ghost before = rows.deep_view();
            let line = condition_row(&conditions[i]);
            assert(line@ == condition_line(all[i as int]));
            rows.push(line);
            assert(rows.deep_view() =~= before.push(line@));
        }
    }
    assert(rows.deep_view() =~= status_rows(value@));
    writer.write_rows(rows);
}

/// The state that a container was last in: `waiting`, `running` or `terminated`.
pub open spec fn last_state(cs: JsonView) -> Seq<char> {
    match members_of(cs.get("lastState"@)) {
        Some(_) => {
            let state = cs.get("lastState"@);
            if at(state, "waiting"@) is Some {
                "waiting"@
            } else if at(state, "running"@) is Some {
                "running"@
            } else if at(state, "terminated"@) is Some {
                "terminated"@
            } else {
                "-"@
            }
        },
        None => "-"@,
    }
}

/// The state that a container was last in.
pub fn last_state_label(cs: &Json) -> (r: String)
    ensures
        r@ == last_state(cs@),
{
    let state = cs.get("lastState");
    if object_of(state).is_none() {
        "-".to_owned()
    } else if get_at(state, "waiting").is_some() {
        "waiting".to_owned()
    } else if get_at(state, "running").is_some() {
        "running".to_owned()
    } else if get_at(state, "terminated").is_some() {
        "terminated".to_owned()
    } else {
        "-".to_owned()
    }
}

/// Why a container last ended, else why it last waited.
pub open spec fn last_reason(cs: JsonView) -> Seq<char> {
    let state = cs.get("lastState"@);
    match text_of(at(at(state, "terminated"@), "reason"@)) {
        Some(r) => r,
        None => or_text(text_of(at(at(state, "waiting"@), "reason"@)), "-"@),
    }
}

/// Why a container last ended, else why it last waited, else `-`.
pub fn last_terminated_reason(cs: &Json) -> (r: String)
    ensures
        r@ == last_reason(cs@),
{
    let state = cs.get("lastState");
    match str_of(get_at(get_at(state, "terminated"), "reason")) {
        Some(r) => r.to_owned(),
        None => text_or(str_of(get_at(get_at(state, "waiting"), "reason")), "-").to_owned(),
    }
}

/// The first status of the container of that name.
pub open spec fn status_named(items: Seq<JsonView>, name: Seq<char>) -> Option<JsonView>
    decreases items.len(),
{
    if items.len() == 0 {
        None
    } else if text_of(items[0].get("name"@)) == Some(name) {
        Some(items[0])
    } else {
        status_named(items.drop_first(), name)
    }
}

fn find_status<'a>(items: &'a Vec<Json>, name: &str) -> (r: Option<&'a Json>)
    ensures
        opt(r) == status_named(items.deep_view(), name@),
{
    let ghost all = items.deep_view();
    let mut i: usize = 0;
    assert(all.skip(0) =~= all);
    while i < items.len()
        invariant
            all == items.deep_view(),
            i <= items@.len(),
            status_named(all, name@) == status_named(all.skip(i as int), name@),
        decreases items@.len() - i,
    {
        assert(all.skip(i as int)[0] == items@[i as int]@);
        assert(all.skip(i as int).drop_first() =~= all.skip(i + 1));
        if is_text(str_of(items[i].get("name")), name) {
            return Some(&items[i]);
        }
        i += 1;
    }
    None
}

/// The row of a declared container, joined with its status where there is one.
pub open spec fn container_line(c: ContainerModel, status: Option<JsonView>) -> Seq<char> {
    match status {
        Some(s) => {
            let ready = match bool_of(s.get("ready"@)) {
                Some(b) => if b {
                    "true"@
                } else {
                    "false"@
                },
                None => "-"@,
            };
            let restarts = match u64_of(s.get("restartCount"@)) {
                Some(n) => decimal(n as nat),
                None => "-"@,
            };
            row(seq![c.container, c.image, ready, restarts, last_state(s), last_reason(s)])
        },
        None => row(seq![c.container, c.image, "-"@, "-"@, "-"@, "-"@]),
    }
}

/// The rows on the declared containers.
pub open spec fn container_rows(value: JsonView) -> Seq<Seq<char>> {
    let items = or_none(items_of(at(value.get("status"@), "containerStatuses"@)));
    let all = walked(value);
    Seq::new(all.len(), |i: int| container_line(all[i], status_named(items, all[i].container)))
}

fn container_row(c: &ContainerView, status: Option<&Json>) -> (r: String)
    ensures
        r@ == container_line(c@, opt(status)),
{
    match status {
        Some(s) => {
            let ready = match boolean_of(s.get("ready")) {
                Some(b) => if b {
                    "true"
                } else {
                    "false"
                },
                None => "-",
            };
            let restarts = match unsigned_of(s.get("restartCount")) {
                Some(n) => write_u64(n),
                None => "-".to_owned(),
            };
            let state = last_state_label(s);
            let reason = last_terminated_reason(s);
            let fields = vec![c.container, c.image, ready, restarts.as_str(), state.as_str(), reason.as_str()];
            assert(fields.deep_view() =~= seq![c.container@, c.image@, ready@, restarts@, state@, reason@]);
            write_row(&fields)
        },
        None => {
            let fields = vec![c.container, c.image, "-", "-", "-", "-"];
            assert(fields.deep_view() =~= seq![c.container@, c.image@, "-"@, "-"@, "-"@, "-"@]);
            write_row(&fields)
        },
    }
}

/// Writes the rows on the declared containers.
pub fn write_containers_section(writer: &mut BoundedWriter, value: &Json)
    ensures
        final(writer)@ == old(writer)@.with_rows(container_rows(value@)),
{
    let statuses = array_of(get_at(value.get("status"), "containerStatuses"));
    let ghost items = or_none(items_of(at(value@.get("status"@), "containerStatuses"@)));
    let all = walk_containers(value);
    let mut rows: Vec<String> = Vec::new();
    for i in 0..all.len()
        invariant
            all.deep_view() == walked(value@),
            items == match statuses {
                Some(v) => v.deep_view(),
                None => seq![],
            },
            items == or_none(items_of(at(value@.get("status"@), "containerStatuses"@))),
            rows.deep_view() =~= container_rows(value@).take(i as int),
    {
        let status = match statuses {
            Some(v) => find_status(v, all[i].container),
            None => None,
        };
        assert(all@[i as int]@ == walked(value@)[i as int]);
        let ghost before = rows.deep_view();
        let line = container_row(&all[i], status);
        assert(line@ == container_rows(value@)[i as int]);
        rows.push(line);
        assert(rows.deep_view() =~= before.push(line@));
    }
    assert(all.deep_view().len() == all@.len());
    assert(rows.deep_view() =~= container_rows(value@));
    writer.write_rows(rows);
}

/// The first reference that is marked as the controller.
pub open spec fn controller(refs: Seq<JsonView>) -> Option<JsonView>
    decreases refs.len(),
{
    if refs.len() == 0 {
        None
    } else if bool_of(refs[0].get("controller"@)) == Some(true) {
        Some(refs[0])
    } else {
        controller(refs.drop_first())
    }
}

/// The kind and the name of the object above: the controller among the owners, else the
/// first. `None` where there is no owner or it lacks a kind or a name.
pub open spec fn owner_of(value: JsonView) -> Option<(Seq<char>, Seq<char>)> {
    let refs = or_none(items_of(at(value.get("metadata"@), "ownerReferences"@)));
    if refs.len() == 0 {
        None
    } else {
        let owner = match controller(refs) {
            Some(o) => o,
            None => refs[0],
        };
        let kind = or_text(text_of(owner.get("kind"@)), ""@);
        let name = or_text(text_of(owner.get("name"@)), ""@);
        if kind.len() == 0 || name.len() == 0 {
            None
        } else {
            Some((kind, name))
        }
    }
}

fn find_controller<'a>(refs: &'a Vec<Json>) -> (r: Option<&'a Json>)
    ensures
        opt(r) == controller(refs.deep_view()),
{
    let ghost all = refs.deep_view();
    let mut i: usize = 0;
    assert(all.skip(0) =~= all);
    while i < refs.len()
        invariant
            all == refs.deep_view(),
            i <= refs@.len(),
            controller(all) == controller(all.skip(i as int)),
        decreases refs@.len() - i,
    {
        assert(all.skip(i as int)[0] == refs@[i as int]@);
        assert(all.skip(i as int).drop_first() =~= all.skip(i + 1));
        let marked = match boolean_of(refs[i].get("controller")) {
            Some(b) => b,
            None => false,
        };
        if marked {
            return Some(&refs[i]);
        }
        i += 1;
    }
    None
}

/// The kind and the name of the object above.
pub fn owner_reference(value: &Json) -> (r: Option<(String, String)>)
    ensures
        r.deep_view() == owner_of(value@),
{
    let refs = match array_of(get_at(value.get("metadata"), "ownerReferences")) {
        Some(refs) => refs,
        None => {
            return None;
        },
    };
    assert(refs.deep_view().len() == refs@.len());
    if refs.len() == 0 {
        return None;
    }
    assert(refs.deep_view()[0] == refs@[0]@);
    let owner = match find_controller(refs) {
        Some(o) => o,
        None => &refs[0],
    };
    let kind = text_or(str_of(owner.get("kind")), "");
    let name = text_or(str_of(owner.get("name")), "");
    if kind.is_empty() || name.is_empty() {
        None
    } else {
        Some((kind.to_owned(), name.to_owned()))
    }
}

/// The rows on the owners: that of the first object of the chain, then that of the next one,
/// as long as each names an owner, for so many hops.
pub open spec fn owner_rows(chain: Seq<JsonView>, hops: nat) -> Seq<Seq<char>>
    decreases hops,
{
    if chain.len() == 0 || hops == 0 {
        seq![]
    } else {
        match owner_of(chain[0]) {
            Some((kind, name)) => seq![kind + "/"@ + name] + owner_rows(chain.drop_first(), (hops - 1) as nat),
            None => seq![],
        }
    }
}

/// Which object to fetch next to follow the owners upwards, after so many hops: the owner of
/// the current one, unless enough were followed.
pub fn next_owner(current: &Json, hops: usize) -> (r: Option<(String, String)>)
    ensures
        hops >= MAX_OWNER_HOPS ==> r is None,
        hops < MAX_OWNER_HOPS ==> r.deep_view() == owner_of(current@),
{
    if hops >= MAX_OWNER_HOPS {
        None
    } else {
        owner_reference(current)
    }
}

/// Writes the rows on the owners. The chain starts with the object itself; each further
/// object is the owner, as fetched, of the one before it.
pub fn write_owners_section(writer: &mut BoundedWriter, chain: &Vec<Json>)
    ensures
        final(writer)@ == old(writer)@.with_rows(owner_rows(chain.deep_view(), MAX_OWNER_HOPS as nat)),
{
    let ghost all = chain.deep_view();
    let ghost want = owner_rows(all, MAX_OWNER_HOPS as nat);
    let mut rows: Vec<String> = Vec::new();
    let mut hops: usize = 0;
    assert(all.skip(0) =~= all);
    assert(rows.deep_view() + want =~= want);
    while hops < MAX_OWNER_HOPS && hops < chain.len()
        invariant_except_break
            all == chain.deep_view(),
            want == owner_rows(all, MAX_OWNER_HOPS as nat),
            hops <= MAX_OWNER_HOPS,
            hops <= chain@.len(),
            rows.deep_view() + owner_rows(all.skip(hops as int), (MAX_OWNER_HOPS - hops) as nat) == want,
        ensures
            rows.deep_view() == want,
        decreases MAX_OWNER_HOPS - hops,
    {
        let ghost rest = all.skip(hops as int);
        assert(rest[0] == chain@[hops as int]@);
        assert(rest.drop_first() =~= all.skip(hops + 1));
        let ghost before = rows.deep_view();
        match next_owner(&chain[hops], hops) {
            Some((kind, name)) => {
                let mut line = kind;
                line.append("/");
                line.append(name.as_str());
                rows.push(line);
                assert(rows.deep_view() =~= before.push(line@));
                assert(before.push(line@) + owner_rows(all.skip(hops + 1), (MAX_OWNER_HOPS - hops - 1) as nat) =~= before
                    + owner_rows(rest, (MAX_OWNER_HOPS - hops) as nat));
                hops += 1;
            },
            None => {
                assert(before + seq![] =~= before);
                break;
            },
        }
        assert(hops < MAX_OWNER_HOPS && hops < chain@.len() || rows.deep_view() + seq![] =~= rows.deep_view());
    }
    writer.write_rows(rows);
}

/// The first events of a list, as many as are shown.
pub open spec fn shown_events(rows: Seq<Seq<char>>) -> Seq<Seq<char>> {
    if rows.len() > MAX_EVENTS {
        rows.take(MAX_EVENTS as int)
    } else {
        rows
    }
}

/// Writes the newest events about the object of that kind and name.
pub fn write_events_section(writer: &mut BoundedWriter, events: &Vec<Json>, kind: &str, name: &str)
    ensures
        final(writer)@ == old(writer)@.with_rows(
            shown_events(lines_of::<EventRow>(event_rows(events.deep_view(), Some((kind@, name@))))),
        ),
{
    let rows = fetch_events_for(events, kind, name);
    let mut lines = render_all(&rows);
    let ghost all = lines.deep_view();
    if lines.len() > MAX_EVENTS {
        lines.truncate(MAX_EVENTS);
    }
    assert(lines.deep_view() =~= shown_events(all));
    writer.write_rows(lines);
}

/// The five sections, each under its header.
pub open spec fn description(
    kind: Seq<char>,
    name: Seq<char>,
    limit: Option<usize>,
    chain: Seq<JsonView>,
    events: Seq<JsonView>,
    now: int,
) -> Page {
    Page::blank(limit).with_header("# Object"@).with_rows(object_rows(chain[0], kind + "/"@ + name, now)).with_header(
        "# Status"@,
    ).with_rows(status_rows(chain[0])).with_header("# Containers"@).with_rows(container_rows(chain[0])).with_header(
        "# Owners"@,
    ).with_rows(owner_rows(chain, MAX_OWNER_HOPS as nat)).with_header("# Events"@).with_rows(
        shown_events(lines_of::<EventRow>(event_rows(events, Some((kind, name))))),
    )
}

/// Describes the object that stands first in `chain`, of the given kind. The chain goes on
/// with its owners as far as they were fetched; `events` are those of its namespace. `None`
/// stands for an object that does not exist.
pub fn run(args: &DescribeArgs, kind: &str, chain: Option<&Vec<Json>>, events: &Vec<Json>, now: u64) -> (r: Report)
    requires
        chain is Some ==> chain->0@.len() > 0,
    ensures
        match chain {
            Some(chain) => r.outcome == Outcome::Found && r.lines.deep_view() == description(
                kind@,
                args.name@,
                args.limit,
                chain.deep_view(),
                events.deep_view(),
                now as int,
            ).lines,
            None => r.outcome == Outcome::NotFound && r.lines@.len() == 0,
        },
{
    let chain = match chain {
        Some(chain) => chain,
        None => {
            return Report { lines: Vec::new(), outcome: Outcome::NotFound };
        },
    };
    let value = &chain[0];
    assert(chain.deep_view()[0] == value@);
    let mut kind_name = kind.to_owned();
    kind_name.append("/");
    kind_name.append(args.name.as_str());
    let mut writer = BoundedWriter::new(args.limit);
    writer.write_decoration("# Object".to_owned());
    write_object_section(&mut writer, value, kind_name.as_str(), now);
    writer.write_decoration("# Status".to_owned());
    write_status_section(&mut writer, value);
    writer.write_decoration("# Containers".to_owned());
    write_containers_section(&mut writer, value);
    writer.write_decoration("# Owners".to_owned());
    write_owners_section(&mut writer, chain);
    writer.write_decoration("# Events".to_owned());
    write_events_section(&mut writer, events, kind, args.name.as_str());
    Report { lines: writer.lines, outcome: Outcome::Found }
}

/// No more owners are listed than are followed.
pub proof fn owners_are_few(chain: Seq<JsonView>, hops: nat)
    ensures
        owner_rows(chain, hops).len() <= hops,
        owner_rows(chain, hops).len() <= chain.len(),
    decreases hops,
{
    if chain.len() > 0 && hops > 0 {
        owners_are_few(chain.drop_first(), (hops - 1) as nat);
    }
}

/// The limit counts the rows of all sections together, and not their five headers; without a
/// limit every row is there.
pub proof fn description_is_bounded(
    kind: Seq<char>,
    name: Seq<char>,
    limit: usize,
    chain: Seq<JsonView>,
    events: Seq<JsonView>,
    now: int,
)
    requires
        chain.len() > 0,
    ensures
        description(kind, name, Some(limit), chain, events, now).lines.len() <= limit + 5,
        description(kind, name, None, chain, events, now).lines.len() == 5 + object_rows(
            chain[0],
            kind + "/"@ + name,
            now,
        ).len() + status_rows(chain[0]).len() + container_rows(chain[0]).len() + owner_rows(
            chain,
            MAX_OWNER_HOPS as nat,
        ).len() + shown_events(lines_of::<EventRow>(event_rows(events, Some((kind, name))))).len(),
{
}

/// Where the status stands that is the first of that name.
pub open spec fn named_first(items: Seq<JsonView>, k: int, name: Seq<char>) -> bool {
    &&& 0 <= k < items.len()
    &&& items[k].get("name"@) == Some(JsonView::Text(name))
    &&& forall|j: int| 0 <= j < k ==> (#[trigger] items[j]).get("name"@) != Some(JsonView::Text(name))
}

/// None of the statuses has that name.
pub open spec fn nameless_in(items: Seq<JsonView>, name: Seq<char>) -> bool {
    forall|j: int| 0 <= j < items.len() ==> (#[trigger] items[j]).get("name"@) != Some(JsonView::Text(name))
}

/// The names of statuses differ from each other.
pub open spec fn names_differ(items: Seq<JsonView>) -> bool {
    forall|j: int, k: int|
        0 <= j < k < items.len() && text_of((#[trigger] items[j]).get("name"@)) is Some ==> items[j].get("name"@) != (
        #[trigger] items[k]).get("name"@)
}

proof fn status_is_the_named_one(items: Seq<JsonView>, k: int, name: Seq<char>)
    ensures
        named_first(items, k, name) ==> status_named(items, name) == Some(items[k]),
        nameless_in(items, name) ==> status_named(items, name) is None,
    decreases items.len(),
{
    if items.len() > 0 {
        let rest = items.drop_first();
        status_is_the_named_one(rest, k - 1, name);
        if named_first(items, k, name) && k > 0 {
            assert(items[0].get("name"@) != Some(JsonView::Text(name)));
            assert(rest[k - 1] == items[k]);
            assert forall|j: int| 0 <= j < k - 1 implies (#[trigger] rest[j]).get("name"@) != Some(
                JsonView::Text(name),
            ) by {
                assert(items[j + 1].get("name"@) != Some(JsonView::Text(name)));
            }
        }
        if nameless_in(items, name) {
            assert(items[0].get("name"@) != Some(JsonView::Text(name)));
            assert forall|j: int| 0 <= j < rest.len() implies (#[trigger] rest[j]).get("name"@) != Some(
                JsonView::Text(name),
            ) by {
                assert(items[j + 1].get("name"@) != Some(JsonView::Text(name)));
            }
        }
    }
}

/// What a container status says in the columns behind the image: whether it is ready, how often it
/// restarted, the state it was last in and why. Each is `-` where the status does not say it.
pub open spec fn status_columns(cs: JsonView, c: Seq<Seq<char>>) -> bool {
    let last = cs.get("lastState"@);
    &&& c.len() == 4
    &&& match cs.get("ready"@) {
        Some(JsonView::Bool(b)) => c[0] == if b {
            "true"@
        } else {
            "false"@
        },
        _ => c[0] == "-"@,
    }
    &&& match cs.get("restartCount"@) {
        Some(JsonView::Int(n)) if n >= 0 => c[1] == decimal(n as nat),
        _ => c[1] == "-"@,
    }
    &&& match last {
        Some(JsonView::Object(_)) => {
            &&& last->0.get("waiting"@) is Some ==> c[2] == "waiting"@
            &&& last->0.get("waiting"@) is None && last->0.get("running"@) is Some ==> c[2] == "running"@
            &&& last->0.get("waiting"@) is None && last->0.get("running"@) is None && last->0.get("terminated"@) is Some
                ==> c[2] == "terminated"@
            &&& last->0.get("waiting"@) is None && last->0.get("running"@) is None && last->0.get("terminated"@) is None
                ==> c[2] == "-"@
        },
        _ => c[2] == "-"@,
    }
    &&& match inner(cs, "lastState"@, "terminated"@) {
        Some(term) => match term.get("reason"@) {
            Some(JsonView::Text(r)) => c[3] == r,
            _ => c[3] == waiting_column(cs),
        },
        None => c[3] == waiting_column(cs),
    }
}

/// Why a container last waited, or `-`.
pub open spec fn waiting_column(cs: JsonView) -> Seq<char> {
    match inner(cs, "lastState"@, "waiting"@) {
        Some(w) => match w.get("reason"@) {
            Some(JsonView::Text(r)) => r,
            _ => "-"@,
        },
        None => "-"@,
    }
}

/// The statuses that an object lists, none where there is no list.
pub open spec fn listed_under_status(value: JsonView) -> Seq<JsonView> {
    match inner(value, "status"@, "containerStatuses"@) {
        Some(JsonView::Array(items)) => items,
        _ => seq![],
    }
}

/// The row of a declared container shows its name and its image, then what the first status of its
/// name says, wherever that stands in the list; where no status has its name, all of that is `-`.
pub proof fn rows_join_statuses_by_name(value: JsonView, i: int, k: int, c: Seq<Seq<char>>)
    requires
        0 <= i < walked(value).len(),
    ensures
        container_rows(value).len() == walked(value).len(),
        named_first(listed_under_status(value), k, walked(value)[i].container) && status_columns(
            listed_under_status(value)[k],
            c,
        ) ==> container_rows(value)[i] == row(seq![walked(value)[i].container, walked(value)[i].image] + c),
        nameless_in(listed_under_status(value), walked(value)[i].container) ==> container_rows(value)[i] == row(
            seq![walked(value)[i].container, walked(value)[i].image, "-"@, "-"@, "-"@, "-"@],
        ),
{
    let items = listed_under_status(value);
    let name = walked(value)[i].container;
    status_is_the_named_one(items, k, name);
    assert(items == or_none(items_of(at(value.get("status"@), "containerStatuses"@))));
    if named_first(items, k, name) && status_columns(items[k], c) {
        let s = items[k];
        assert(c =~= seq![c[0], c[1], c[2], c[3]]);
        assert(seq![name, walked(value)[i].image] + c =~= seq![name, walked(value)[i].image, c[0], c[1], c[2], c[3]]);
        assert(c[2] == last_state(s));
        assert(c[3] == last_reason(s));
    }
}

/// The order of the statuses does not matter, as long as their names differ: the rows of the
/// containers stay as they are.
pub proof fn order_of_statuses_does_not_matter(a: JsonView, b: JsonView)
    requires
        walked(a) == walked(b),
        listed_under_status(a).to_multiset() == listed_under_status(b).to_multiset(),
        names_differ(listed_under_status(a)),
    ensures
        container_rows(a) == container_rows(b),
{
    broadcast use vstd::seq_lib::group_to_multiset_ensures;
    let x = listed_under_status(a);
    let y = listed_under_status(b);
    assert(x == or_none(items_of(at(a.get("status"@), "containerStatuses"@))));
    assert(y == or_none(items_of(at(b.get("status"@), "containerStatuses"@))));
    assert forall|p: JsonView| #[trigger] x.contains(p) == y.contains(p) by {
        assert(x.contains(p) <==> x.to_multiset().count(p) > 0);
        assert(y.contains(p) <==> y.to_multiset().count(p) > 0);
    }
    assert forall|name: Seq<char>| #[trigger] status_named(x, name) == status_named(y, name) by {
        named_status_stands(x, name);
        named_status_stands(y, name);
        if let Some(s) = status_named(x, name) {
            assert(y.contains(s));
            let k = y.index_of(s);
            assert(!nameless_in(y, name)) by {
                assert(y[k].get("name"@) == Some(JsonView::Text(name)));
            }
            let t = status_named(y, name)->0;
            assert(x.contains(t));
            let p = x.index_of(s);
            let q = x.index_of(t);
            if p < q {
                assert(x[p].get("name"@) == Some(JsonView::Text(name)) && x[q].get("name"@) == Some(JsonView::Text(name)));
            } else if q < p {
                assert(x[q].get("name"@) == Some(JsonView::Text(name)) && x[p].get("name"@) == Some(JsonView::Text(name)));
            }
        } else if let Some(t) = status_named(y, name) {
            assert(x.contains(t));
            let q = x.index_of(t);
            assert(x[q].get("name"@) == Some(JsonView::Text(name)));
        }
    }
    assert(container_rows(a) =~= container_rows(b));
}

proof fn named_status_stands(items: Seq<JsonView>, name: Seq<char>)
    ensures
        match status_named(items, name) {
            Some(s) => items.contains(s) && s.get("name"@) == Some(JsonView::Text(name)),
            None => nameless_in(items, name),
        },
    decreases items.len(),
{
    if items.len() > 0 {
        let rest = items.drop_first();
        named_status_stands(rest, name);
        if text_of(items[0].get("name"@)) == Some(name) {
            assert(items[0].get("name"@) == Some(JsonView::Text(name)));
        } else if let Some(s) = status_named(rest, name) {
            let k = rest.index_of(s);
            assert(items[k + 1] == s);
        } else {
            assert forall|j: int| 0 <= j < items.len() implies (#[trigger] items[j]).get("name"@) != Some(
                JsonView::Text(name),
            ) by {
                if j > 0 {
                    assert(rest[j - 1] == items[j]);
                }
            }
        }
    }
}

/// The owner of an object is the first of its references that is marked as the controller, wherever
/// it stands, else the first of all; there is none without a reference, and none where it lacks a
/// kind or a name.
pub proof fn controllers_own_objects(value: JsonView, refs: Seq<JsonView>, i: int)
    requires
        inner(value, "metadata"@, "ownerReferences"@) == Some(JsonView::Array(refs)),
        0 <= i < refs.len(),
        (refs[i].get("controller"@) == Some(JsonView::Bool(true)) && forall|k: int|
            0 <= k < i ==> (#[trigger] refs[k]).get("controller"@) != Some(JsonView::Bool(true))) || (i == 0 && forall|
            k: int,
        |
            0 <= k < refs.len() ==> (#[trigger] refs[k]).get("controller"@) != Some(JsonView::Bool(true))),
    ensures
        ({
            let kind = said(refs[i].get("kind"@), seq![]);
            let name = said(refs[i].get("name"@), seq![]);
            &&& kind.len() > 0 && name.len() > 0 ==> owner_of(value) == Some((kind, name))
            &&& kind.len() == 0 || name.len() == 0 ==> owner_of(value) is None
        }),
{
    reveal_strlit("");
    assert(""@ =~= seq![]);
    first_controller(refs, i);
}

proof fn first_controller(refs: Seq<JsonView>, i: int)
    ensures
        0 <= i < refs.len() && refs[i].get("controller"@) == Some(JsonView::Bool(true)) && (forall|k: int|
            0 <= k < i ==> (#[trigger] refs[k]).get("controller"@) != Some(JsonView::Bool(true))) ==> controller(refs)
            == Some(refs[i]),
        (forall|k: int| 0 <= k < refs.len() ==> (#[trigger] refs[k]).get("controller"@) != Some(JsonView::Bool(true)))
            ==> controller(refs) is None,
    decreases refs.len(),
{
    if refs.len() > 0 {
        let rest = refs.drop_first();
        first_controller(rest, i - 1);
        if 0 < i < refs.len() && (forall|k: int|
            0 <= k < i ==> (#[trigger] refs[k]).get("controller"@) != Some(JsonView::Bool(true))) {
            assert(refs[0].get("controller"@) != Some(JsonView::Bool(true)));
            assert(rest[i - 1] == refs[i]);
            assert forall|k: int| 0 <= k < i - 1 implies (#[trigger] rest[k]).get("controller"@) != Some(
                JsonView::Bool(true),
            ) by {
                assert(refs[k + 1].get("controller"@) != Some(JsonView::Bool(true)));
            }
        }
        if forall|k: int| 0 <= k < refs.len() ==> (#[trigger] refs[k]).get("controller"@) != Some(JsonView::Bool(true)) {
            assert(refs[0].get("controller"@) != Some(JsonView::Bool(true)));
            assert forall|k: int| 0 <= k < rest.len() implies (#[trigger] rest[k]).get("controller"@) != Some(
                JsonView::Bool(true),
            ) by {
                assert(refs[k + 1].get("controller"@) != Some(JsonView::Bool(true)));
            }
        }
    }
}

/// An object without references has no owner.
pub proof fn no_reference_no_owner(value: JsonView)
    requires
        list_of(inner(value, "metadata"@, "ownerReferences"@)).len() == 0,
    ensures
        owner_of(value) is None,
{
}

/// The owners are listed from the nearest up: the row at a place is the owner of the object there,
/// and the list goes on as long as there is one, for as many hops as are allowed.
pub proof fn owners_are_listed_from_the_nearest(chain: Seq<JsonView>, hops: nat, i: int)
    ensures
        0 <= i < owner_rows(chain, hops).len() ==> i < chain.len() && owner_of(chain[i]) is Some && owner_rows(chain, hops)[i]
            == (owner_of(chain[i])->0).0 + seq!['/'] + (owner_of(chain[i])->0).1,
        ({
            let n = owner_rows(chain, hops).len();
            n == hops || n == chain.len() || (n < chain.len() && owner_of(chain[n as int]) is None)
        }),
    decreases hops,
{
    reveal_strlit("/");
    assert("/"@ =~= seq!['/']);
    if chain.len() > 0 && hops > 0 {
        let rest = chain.drop_first();
        owners_are_listed_from_the_nearest(rest, (hops - 1) as nat, i - 1);
        if owner_of(chain[0]) is Some {
            let n = owner_rows(rest, (hops - 1) as nat).len();
            if n < rest.len() {
                assert(rest[n as int] == chain[n as int + 1]);
            }
            if 0 < i < owner_rows(chain, hops).len() {
                assert(rest[i - 1] == chain[i]);
            }
        }
    }
}

/// The events that are shown are the first of the list, ten at most.
pub proof fn ten_events_are_shown(rows: Seq<Seq<char>>)
    ensures
        shown_events(rows).is_prefix_of(rows),
        shown_events(rows).len() == if rows.len() > 10 {
            10
        } else {
            rows.len()
        },
{
}

/// The sections come in their order, each under its header.
pub proof fn sections_come_in_order(kind: Seq<char>, name: Seq<char>, chain: Seq<JsonView>, events: Seq<JsonView>, now: int)
    requires
        chain.len() > 0,
    ensures
        description(kind, name, None, chain, events, now).lines == seq!["# Object"@] + object_rows(
            chain[0],
            kind + seq!['/'] + name,
            now,
        ) + seq!["# Status"@] + status_rows(chain[0]) + seq!["# Containers"@] + container_rows(chain[0]) + seq![
            "# Owners"@,
        ] + owner_rows(chain, 5) + seq!["# Events"@] + shown_events(
            lines_of::<EventRow>(event_rows(events, Some((kind, name)))),
        ),
{
    reveal_strlit("/");
    assert("/"@ =~= seq!['/']);
    let a = object_rows(chain[0], kind + "/"@ + name, now);
    let b = status_rows(chain[0]);
    let c = container_rows(chain[0]);
    let d = owner_rows(chain, MAX_OWNER_HOPS as nat);
    let e = shown_events(lines_of::<EventRow>(event_rows(events, Some((kind, name)))));
    let p0 = Page::blank(None).with_header("# Object"@);
    assert(p0.lines =~= seq!["# Object"@]);
    let p1 = p0.with_rows(a).with_header("# Status"@);
    assert(p1.lines =~= seq!["# Object"@] + a + seq!["# Status"@]);
    let p2 = p1.with_rows(b).with_header("# Containers"@);
    assert(p2.lines =~= seq!["# Object"@] + a + seq!["# Status"@] + b + seq!["# Containers"@]);
    let p3 = p2.with_rows(c).with_header("# Owners"@);
    assert(p3.lines =~= seq!["# Object"@] + a + seq!["# Status"@] + b + seq!["# Containers"@] + c + seq!["# Owners"@]);
    let p4 = p3.with_rows(d).with_header("# Events"@);
    assert(p4.lines =~= seq!["# Object"@] + a + seq!["# Status"@] + b + seq!["# Containers"@] + c + seq!["# Owners"@] + d
        + seq!["# Events"@]);
    assert(p4.with_rows(e).lines =~= p4.lines + e);
}

/// An age is told in whole days, hours, minutes or seconds, in the largest of them that the time
/// comes to at least once.
pub proof fn ages_are_told_in_the_largest_unit(ts: Seq<char>, now: int, start: int, n: nat)
    requires
        instant(ts) == Some(start),
    ensures
        now < start ==> coarse_age(ts, now) == "0s"@,
        n >= 1 && n * 86400 <= now - start < (n + 1) * 86400 ==> coarse_age(ts, now) == decimal(n) + "d"@,
        1 <= n < 24 && n * 3600 <= now - start < (n + 1) * 3600 ==> coarse_age(ts, now) == decimal(n) + "h"@,
        1 <= n < 60 && n * 60 <= now - start < (n + 1) * 60 ==> coarse_age(ts, now) == decimal(n) + "m"@,
        n < 60 && now - start == n ==> coarse_age(ts, now) == decimal(n) + "s"@,
{
    let dt = now - start;
    if n * 86400 <= dt < (n + 1) * 86400 {
        assert(dt / 86400 == n);
    }
    if n * 3600 <= dt < (n + 1) * 3600 {
        assert(dt / 3600 == n);
    }
    if n * 60 <= dt < (n + 1) * 60 {
        assert(dt / 60 == n);
    }
}

/// The rows on an object: its kind and name, its namespace where told, its age where told when it
/// was created, then its labels and its annotations.
pub proof fn object_rows_tell_the_metadata(value: JsonView, kind_name: Seq<char>, now: int, ns: Seq<char>, ts: Seq<char>)
    ensures
        object_rows(value, kind_name, now).len() > 0,
        object_rows(value, kind_name, now)[0] == "kind/name\t"@ + kind_name,
        inner(value, "metadata"@, "namespace"@) == Some(JsonView::Text(ns)) ==> object_rows(value, kind_name, now).len() > 1
            && object_rows(value, kind_name, now)[1] == "namespace\t"@ + ns,
        inner(value, "metadata"@, "namespace"@) == Some(JsonView::Text(ns)) && inner(
            value,
            "metadata"@,
            "creationTimestamp"@,
        ) == Some(JsonView::Text(ts)) ==> object_rows(value, kind_name, now).len() > 2 && object_rows(
            value,
            kind_name,
            now,
        )[2] == "age\t"@ + coarse_age(ts, now),
        text_of(inner(value, "metadata"@, "namespace"@)) is None && inner(value, "metadata"@, "creationTimestamp"@) == Some(
            JsonView::Text(ts),
        ) ==> object_rows(value, kind_name, now).len() > 1 && object_rows(value, kind_name, now)[1] == "age\t"@ + coarse_age(
            ts,
            now,
        ),
{
}

/// Every label and every annotation of an object has its row, and the rows of each come in the
/// order of their keys.
pub proof fn labels_and_annotations_are_listed(
    value: JsonView,
    kind_name: Seq<char>,
    now: int,
    members: Seq<(Seq<char>, JsonView)>,
    i: int,
)
    requires
        0 <= i < members.len(),
    ensures
        inner(value, "metadata"@, "labels"@) == Some(JsonView::Object(members)) ==> object_rows(
            value,
            kind_name,
            now,
        ).contains("label\t"@ + members[i].0 + "="@ + said(Some(members[i].1), ""@)),
        inner(value, "metadata"@, "annotations"@) == Some(JsonView::Object(members)) ==> object_rows(
            value,
            kind_name,
            now,
        ).contains("annotation\t"@ + members[i].0 + "="@ + on_one_line(said(Some(members[i].1), ""@))),
        tags(members).len() == members.len(),
        forall|a: int, b: int| 0 <= a < b < tags(members).len() ==> text_le(
            (#[trigger] tags(members)[a]).0,
            (#[trigger] tags(members)[b]).0,
        ),
{
    let pairs = Seq::new(members.len(), |i: int| (members[i].0, or_text(members[i].1.text(), ""@)));
    let all = tags(members);
    sorted_is_a_stable_sort::<Pair>(pairs);
    sorted_holds::<Pair>(pairs, pairs[i]);
    assert(pairs.contains(pairs[i]));
    let k = all.index_of(pairs[i]);
    assert(all[k] == pairs[i]);
    assert forall|a: int, b: int| 0 <= a < b < all.len() implies text_le((#[trigger] all[a]).0, (#[trigger] all[b]).0) by {
        assert(Pair::le(all[a], all[b]));
    }
    let metadata = value.get("metadata"@);
    let age = match text_of(at(metadata, "creationTimestamp"@)) {
        Some(ts) => Some(coarse_age(ts, now)),
        None => None,
    };
    let head = seq!["kind/name\t"@ + kind_name] + optional_line("namespace\t"@, text_of(at(metadata, "namespace"@)))
        + optional_line("age\t"@, age);
    let labels = match members_of(at(metadata, "labels"@)) {
        Some(members) => label_lines(members),
        None => seq![],
    };
    let rows = object_rows(value, kind_name, now);
    if inner(value, "metadata"@, "labels"@) == Some(JsonView::Object(members)) {
        assert(label_lines(members)[k] == rows[head.len() + k]);
    }
    if inner(value, "metadata"@, "annotations"@) == Some(JsonView::Object(members)) {
        assert(annotation_lines(members)[k] == rows[head.len() + labels.len() + k]);
    }
}

/// The rows on the status: the phase where told, and a row for each condition, in their order, with
/// its type, status and reason, `-` where not told, and its message on one line.
pub proof fn status_rows_tell_the_conditions(value: JsonView, phase: Seq<char>, i: int)
    ensures
        ({
            let conditions = list_of(inner(value, "status"@, "conditions"@));
            let first: int = if text_of(inner(value, "status"@, "phase"@)) is Some {
                1
            } else {
                0
            };
            &&& status_rows(value).len() == first + conditions.len()
            &&& inner(value, "status"@, "phase"@) == Some(JsonView::Text(phase)) ==> status_rows(value)[0] == "phase\t"@
                + phase
            &&& 0 <= i < conditions.len() ==> status_rows(value)[first + i] == row(
                seq![
                    said(conditions[i].get("type"@), "-"@),
                    said(conditions[i].get("status"@), "-"@),
                    said(conditions[i].get("reason"@), "-"@),
                    on_one_line(said(conditions[i].get("message"@), ""@)),
                ],
            )
        }),
{
}

} // verus!
