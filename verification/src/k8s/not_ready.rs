//! Objects whose condition is not at the wanted status.
use crate::gather::{gathered, gathered_holds, gathered_step};
use crate::k8s::get::place;
use crate::k8s::images::{full_name, write_full_name};
use crate::order::{
    lines_of, render_all, sort, sorted, sorted_holds, sorted_is_a_stable_sort, texts_at_most, texts_le,
    texts_le_total, texts_le_transitive, views, Line, Ranked,
};
use crate::output::{answer_rows, answers, collapse_newlines, on_one_line, Report};
use crate::text::{row, same, write_row};
use crate::value::{
    array_of, at, get_at, inner, is_text, items_of, list_of, opt, or_none, or_text, said, str_of, text_of,
    text_or, Json, JsonView,
};
use vstd::prelude::*;
use vstd::string::*;

verus! {

/// The arguments of the command.
#[derive(Debug)]
pub struct NotReadyArgs {
    pub kind: String,
    pub namespace: Option<String>,
    pub all_namespaces: bool,
    pub selector: Option<String>,
    pub condition: String,
    /// The status that counts as healthy.
    pub status: String,
    pub limit: Option<usize>,
}

/// An object whose condition is not met.
#[derive(Debug, PartialEq)]
pub struct NotReadyRow {
    pub namespace: String,
    pub name: String,
    pub status: String,
    pub reason: String,
    pub message: String,
}

/// What a `NotReadyRow` says.
#[verifier::ext_equal]
pub struct NotReadyModel {
    pub namespace: Seq<char>,
    pub name: Seq<char>,
    pub status: Seq<char>,
    pub reason: Seq<char>,
    pub message: Seq<char>,
}

impl View for NotReadyRow {
    type V = NotReadyModel;

    open spec fn view(&self) -> NotReadyModel {
        NotReadyModel {
            namespace: self.namespace@,
            name: self.name@,
            status: self.status@,
            reason: self.reason@,
            message: self.message@,
        }
    }
}

/// The first condition of that type.
pub open spec fn condition_of(conditions: Seq<JsonView>, kind: Seq<char>) -> Option<JsonView>
    decreases conditions.len(),
{
    if conditions.len() == 0 {
        None
    } else if text_of(conditions[0].get("type"@)) == Some(kind) {
        Some(conditions[0])
    } else {
        condition_of(conditions.drop_first(), kind)
    }
}

/// The row of an object whose condition of the given type is not at the wanted status, or is
/// missing; `None` where it is met.
pub open spec fn unmet_row(v: JsonView, cond_type: Seq<char>, want: Seq<char>) -> Option<NotReadyModel> {
    let found = condition_of(or_none(items_of(at(v.get("status"@), "conditions"@))), cond_type);
    let status = or_text(text_of(at(found, "status"@)), "-"@);
    if found is Some && status == want {
        None
    } else {
        Some(
            NotReadyModel {
                namespace: place(v)[0],
                name: place(v)[1],
                status,
                reason: or_text(text_of(at(found, "reason"@)), "-"@),
                message: on_one_line(or_text(text_of(at(found, "message"@)), "-"@)),
            },
        )
    }
}

fn find_condition<'a>(conditions: &'a Vec<Json>, kind: &str) -> (r: Option<&'a Json>)
    ensures
        opt(r) == condition_of(conditions.deep_view(), kind@),
{
    let ghost all = conditions.deep_view();
    let mut i: usize = 0;
    assert(all.skip(0) =~= all);
    while i < conditions.len()
        invariant
            all == conditions.deep_view(),
            i <= conditions@.len(),
            condition_of(all, kind@) == condition_of(all.skip(i as int), kind@),
        decreases conditions@.len() - i,
    {
        assert(all.skip(i as int)[0] == conditions@[i as int]@);
        assert(all.skip(i as int).drop_first() =~= all.skip(i + 1));
        if is_text(str_of(conditions[i].get("type")), kind) {
            return Some(&conditions[i]);
        }
        i += 1;
    }
    None
}

/// The row of an object whose condition is not at the wanted status, or is missing.
pub fn unmet(v: &Json, cond_type: &str, want: &str) -> (r: Option<NotReadyRow>)
    ensures
        opt(r) == unmet_row(v@, cond_type@, want@),
{
    let found = match array_of(get_at(v.get("status"), "conditions")) {
        Some(conditions) => find_condition(conditions, cond_type),
        None => None,
    };
    let status = text_or(str_of(get_at(found, "status")), "-");
    if found.is_some() && same(status, want) {
        return None;
    }
    let metadata = v.get("metadata");
    Some(
        NotReadyRow {
            namespace: text_or(str_of(get_at(metadata, "namespace")), "").to_owned(),
            name: text_or(str_of(get_at(metadata, "name")), "").to_owned(),
            status: status.to_owned(),
            reason: text_or(str_of(get_at(found, "reason")), "-").to_owned(),
            message: collapse_newlines(text_or(str_of(get_at(found, "message")), "-")),
        },
    )
}

/// The row of one object, where it has one.
pub open spec fn not_ready_row(cond_type: Seq<char>, want: Seq<char>) -> spec_fn(JsonView) -> Seq<NotReadyModel> {
    |v: JsonView|
        match unmet_row(v, cond_type, want) {
            Some(r) => seq![r],
            None => seq![],
        }
}

impl Ranked for NotReadyRow {
    /// By namespace, then by name.
    open spec fn le(a: NotReadyModel, b: NotReadyModel) -> bool {
        texts_le(seq![a.namespace, a.name], seq![b.namespace, b.name])
    }

    proof fn le_total(a: NotReadyModel, b: NotReadyModel) {
        texts_le_total(seq![a.namespace, a.name], seq![b.namespace, b.name]);
    }

    proof fn le_transitive(a: NotReadyModel, b: NotReadyModel, c: NotReadyModel) {
        texts_le_transitive(seq![a.namespace, a.name], seq![b.namespace, b.name], seq![c.namespace, c.name]);
    }

    fn at_most(&self, other: &Self) -> (r: bool) {
        let mine = vec![self.namespace.as_str(), self.name.as_str()];
        let theirs = vec![other.namespace.as_str(), other.name.as_str()];
        assert(mine.deep_view() =~= seq![self.namespace@, self.name@]);
        assert(theirs.deep_view() =~= seq![other.namespace@, other.name@]);
        texts_at_most(&mine, &theirs)
    }
}

impl Line for NotReadyRow {
    open spec fn line(v: NotReadyModel) -> Seq<char> {
        row(seq![full_name(v.namespace, v.name), v.status, v.reason, v.message])
    }

    fn render(&self) -> (r: String) {
        let name = write_full_name(self.namespace.as_str(), self.name.as_str());
        let fields = vec![name.as_str(), self.status.as_str(), self.reason.as_str(), self.message.as_str()];
        assert(fields.deep_view() =~= seq![name@, self.status@, self.reason@, self.message@]);
        write_row(&fields)
    }
}

/// Lists the objects whose condition is not met, by namespace and name. Something is found where
/// there is such an object, whatever the limit.
pub fn run(args: &NotReadyArgs, objects: &Vec<Json>) -> (r: Report)
    ensures
        answers(
            r,
            lines_of::<NotReadyRow>(not_ready_listing(objects.deep_view(), args.condition@, args.status@)),
            args.limit,
        ),
{
    let ghost all = objects.deep_view();
    let ghost f = not_ready_row(args.condition@, args.status@);
    let mut rows: Vec<NotReadyRow> = Vec::new();
    assert(views(rows@) =~= gathered(all.take(0), f));
    for i in 0..objects.len()
        invariant
            all == objects.deep_view(),
            f == not_ready_row(args.condition@, args.status@),
            views(rows@) == gathered(all.take(i as int), f),
    {
        proof {
            gathered_step(all, f, i as int);
        }
        assert(objects@[i as int]@ == all[i as int]);
        let ghost before = views(rows@);
        match unmet(&objects[i], args.condition.as_str(), args.status.as_str()) {
            Some(item) => {
                rows.push(item);
                assert(views(rows@) =~= before + seq![item@]);
            },
            None => {
                assert(before =~= before + seq![]);
            },
        }
    }
    assert(all.take(all.len() as int) =~= all);
    let ordered = sort(rows);
    answer_rows(render_all(&ordered), args.limit)
}

/// Where the first condition of that type stands.
pub open spec fn first_of_type(conditions: Seq<JsonView>, i: int, kind: Seq<char>) -> bool {
    &&& 0 <= i < conditions.len()
    &&& conditions[i].get("type"@) == Some(JsonView::Text(kind))
    &&& forall|k: int| 0 <= k < i ==> (#[trigger] conditions[k]).get("type"@) != Some(JsonView::Text(kind))
}

/// No condition is of that type.
pub open spec fn none_of_type(conditions: Seq<JsonView>, kind: Seq<char>) -> bool {
    forall|k: int| 0 <= k < conditions.len() ==> (#[trigger] conditions[k]).get("type"@) != Some(JsonView::Text(kind))
}

/// An object is listed where the first condition of the type asked for is at another status than
/// the one wanted, or where there is no condition of that type. Its row shows where it is and the
/// status, the reason and the message of the condition, the message on one line, each `-` where it
/// is not told.
pub proof fn objects_are_ready_by_their_condition(v: JsonView, kind: Seq<char>, want: Seq<char>, i: int)
    ensures
        ({
            let conditions = list_of(inner(v, "status"@, "conditions"@));
            let out = unmet_row(v, kind, want);
            &&& out is Some ==> out->0.namespace == said(inner(v, "metadata"@, "namespace"@), ""@) && out->0.name == said(
                inner(v, "metadata"@, "name"@),
                ""@,
            )
            &&& first_of_type(conditions, i, kind) ==> {
                let c = conditions[i];
                &&& out is None <==> said(c.get("status"@), "-"@) == want
                &&& out is Some ==> out->0.status == said(c.get("status"@), "-"@) && out->0.reason == said(
                    c.get("reason"@),
                    "-"@,
                ) && out->0.message == on_one_line(said(c.get("message"@), "-"@))
            }
            &&& none_of_type(conditions, kind) ==> out is Some && out->0.status == "-"@ && out->0.reason == "-"@
                && out->0.message == "-"@
        }),
{
    first_condition_counts(list_of(inner(v, "status"@, "conditions"@)), i, kind);
    reveal_strlit("-");
    assert(on_one_line("-"@) =~= "-"@);
}

proof fn first_condition_counts(items: Seq<JsonView>, i: int, kind: Seq<char>)
    ensures
        first_of_type(items, i, kind) ==> condition_of(items, kind) == Some(items[i]),
        none_of_type(items, kind) ==> condition_of(items, kind) is None,
    decreases items.len(),
{
    if items.len() > 0 {
        let rest = items.drop_first();
        first_condition_counts(rest, i - 1, kind);
        if first_of_type(items, i, kind) && i > 0 {
            assert(items[0].get("type"@) != Some(JsonView::Text(kind)));
            assert(rest[i - 1] == items[i]);
            assert forall|k: int| 0 <= k < i - 1 implies (#[trigger] rest[k]).get("type"@) != Some(JsonView::Text(kind)) by {
                assert(items[k + 1].get("type"@) != Some(JsonView::Text(kind)));
            }
        }
        if none_of_type(items, kind) {
            assert(items[0].get("type"@) != Some(JsonView::Text(kind)));
            assert forall|k: int| 0 <= k < rest.len() implies (#[trigger] rest[k]).get("type"@) != Some(
                JsonView::Text(kind),
            ) by {
                assert(items[k + 1].get("type"@) != Some(JsonView::Text(kind)));
            }
        }
    }
}

/// The objects whose condition is not met, in the order in which they are shown.
pub open spec fn not_ready_listing(objects: Seq<JsonView>, kind: Seq<char>, want: Seq<char>) -> Seq<NotReadyModel> {
    sorted::<NotReadyRow>(gathered(objects, not_ready_row(kind, want)))
}

/// Every object whose condition is not met is listed and no other, by namespace and name.
pub proof fn unready_objects_are_listed(objects: Seq<JsonView>, kind: Seq<char>, want: Seq<char>, r: NotReadyModel)
    ensures
        not_ready_listing(objects, kind, want).contains(r) <==> exists|p: int|
            0 <= p < objects.len() && unmet_row(#[trigger] objects[p], kind, want) == Some(r),
        forall|i: int, j: int|
            0 <= i < j < not_ready_listing(objects, kind, want).len() ==> texts_le(
                seq![(#[trigger] not_ready_listing(objects, kind, want)[i]).namespace, not_ready_listing(objects, kind, want)[i].name],
                seq![(#[trigger] not_ready_listing(objects, kind, want)[j]).namespace, not_ready_listing(objects, kind, want)[j].name],
            ),
        r.namespace.len() == 0 ==> NotReadyRow::line(r) == row(seq![r.name, r.status, r.reason, r.message]),
        r.namespace.len() > 0 ==> NotReadyRow::line(r) == row(seq![r.namespace + seq!['/'] + r.name, r.status, r.reason, r.message]),
{
    let f = not_ready_row(kind, want);
    let all = gathered(objects, f);
    let out = not_ready_listing(objects, kind, want);
    sorted_holds::<NotReadyRow>(all, r);
    sorted_is_a_stable_sort::<NotReadyRow>(all);
    gathered_holds(objects, f, r);
    assert forall|i: int, j: int| 0 <= i < j < out.len() implies texts_le(
        seq![(#[trigger] out[i]).namespace, out[i].name],
        seq![(#[trigger] out[j]).namespace, out[j].name],
    ) by {
        assert(NotReadyRow::le(out[i], out[j]));
    }
    assert forall|p: int| 0 <= p < objects.len() implies f(#[trigger] objects[p]).contains(r) == (unmet_row(objects[p], kind, want)
        == Some(r)) by {
        if unmet_row(objects[p], kind, want) == Some(r) {
            assert(f(objects[p])[0] == r);
        }
    }
    if exists|p: int| 0 <= p < objects.len() && unmet_row(#[trigger] objects[p], kind, want) == Some(r) {
        let p = choose|p: int| 0 <= p < objects.len() && unmet_row(#[trigger] objects[p], kind, want) == Some(r);
        assert(f(objects[p]).contains(r));
    }
    reveal_strlit("/");
    assert("/"@ =~= seq!['/']);
}

} // verus!
