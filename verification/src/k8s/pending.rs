//! Pods that wait to be placed.
use crate::gather::{gathered, gathered_holds, gathered_step};
use crate::k8s::get::place;
use crate::k8s::images::{full_name, write_full_name};
use crate::order::{
    lines_of, render_all, sort, sorted, sorted_holds, sorted_is_a_stable_sort, texts_at_most, texts_le,
    texts_le_total, texts_le_transitive, views, Line, Ranked,
};
use crate::output::{report_rows, reports, Report};
use crate::text::{row, write_row};
use crate::value::{
    array_of, at, get_at, inner, is_text, items_of, list_of, opt, or_none, or_text, said, str_of, text_of,
    text_or, Json, JsonView,
};
use vstd::prelude::*;
use vstd::string::*;

verus! {

/// The arguments of the command.
#[derive(Debug)]
pub struct PendingArgs {
    pub namespace: Option<String>,
    pub all_namespaces: bool,
    pub selector: Option<String>,
    pub limit: Option<usize>,
}

/// A pod that waits to be placed.
#[derive(Debug, PartialEq)]
pub struct PendingRow {
    pub namespace: String,
    pub pod: String,
    pub reason: String,
}

/// What a `PendingRow` says.
#[verifier::ext_equal]
pub struct PendingModel {
    pub namespace: Seq<char>,
    pub pod: Seq<char>,
    pub reason: Seq<char>,
}

impl View for PendingRow {
    type V = PendingModel;

    open spec fn view(&self) -> PendingModel {
        PendingModel {
            namespace: self.namespace@,
            pod: self.pod@,
            reason: self.reason@,
        }
    }
}

/// The message of a condition that says that the pod is not scheduled.
pub open spec fn unscheduled(c: JsonView) -> Option<Seq<char>> {
    if text_of(c.get("type"@)) == Some("PodScheduled"@) && text_of(c.get("status"@)) == Some("False"@) {
        text_of(c.get("message"@))
    } else {
        None
    }
}

/// The first message that says that the pod is not scheduled.
pub open spec fn first_unscheduled(conditions: Seq<JsonView>) -> Option<Seq<char>>
    decreases conditions.len(),
{
    if conditions.len() == 0 {
        None
    } else {
        match unscheduled(conditions[0]) {
            Some(m) => Some(m),
            None => first_unscheduled(conditions.drop_first()),
        }
    }
}

/// The row of a pod whose phase is `Pending`: with the message of the condition that says that
/// it is not scheduled, or `-`.
pub open spec fn pending(pod: JsonView) -> Option<PendingModel> {
    let status = pod.get("status"@);
    if text_of(at(status, "phase"@)) == Some("Pending"@) {
        Some(
            PendingModel {
                namespace: place(pod)[0],
                pod: place(pod)[1],
                reason: or_text(first_unscheduled(or_none(items_of(at(status, "conditions"@)))), "-"@),
            },
        )
    } else {
        None
    }
}

fn find_unscheduled<'a>(conditions: &'a Vec<Json>) -> (r: Option<&'a str>)
    ensures
        opt(r) == first_unscheduled(conditions.deep_view()),
{
    let ghost all = conditions.deep_view();
    let mut i: usize = 0;
    assert(all.skip(0) =~= all);
    while i < conditions.len()
        invariant
            all == conditions.deep_view(),
            i <= conditions@.len(),
            first_unscheduled(all) == first_unscheduled(all.skip(i as int)),
        decreases conditions@.len() - i,
    {
        let c = &conditions[i];
        assert(all.skip(i as int)[0] == c@);
        assert(all.skip(i as int).drop_first() =~= all.skip(i + 1));
        if is_text(str_of(c.get("type")), "PodScheduled") && is_text(str_of(c.get("status")), "False") {
            if let Some(m) = str_of(c.get("message")) {
                return Some(m);
            }
        }
        i += 1;
    }
    None
}

/// The row of a pod that waits to be placed.
pub fn extract_pending_row(pod: &Json) -> (r: Option<PendingRow>)
    ensures
        opt(r) == pending(pod@),
{
    let status = pod.get("status");
    if !is_text(str_of(get_at(status, "phase")), "Pending") {
        return None;
    }
    let metadata = pod.get("metadata");
    let message = match array_of(get_at(status, "conditions")) {
        Some(conditions) => find_unscheduled(conditions),
        None => None,
    };
    Some(
        PendingRow {
            namespace: text_or(str_of(get_at(metadata, "namespace")), "").to_owned(),
            pod: text_or(str_of(get_at(metadata, "name")), "").to_owned(),
            reason: text_or(message, "-").to_owned(),
        },
    )
}

/// The row of one object, where it has one.
pub open spec fn pending_row() -> spec_fn(JsonView) -> Seq<PendingModel> {
    |v: JsonView|
        match pending(v) {
            Some(r) => seq![r],
            None => seq![],
        }
}

impl Ranked for PendingRow {
    /// By namespace, then by name.
    open spec fn le(a: PendingModel, b: PendingModel) -> bool {
        texts_le(seq![a.namespace, a.pod], seq![b.namespace, b.pod])
    }

    proof fn le_total(a: PendingModel, b: PendingModel) {
        texts_le_total(seq![a.namespace, a.pod], seq![b.namespace, b.pod]);
    }

    proof fn le_transitive(a: PendingModel, b: PendingModel, c: PendingModel) {
        texts_le_transitive(seq![a.namespace, a.pod], seq![b.namespace, b.pod], seq![c.namespace, c.pod]);
    }

    fn at_most(&self, other: &Self) -> (r: bool) {
        let mine = vec![self.namespace.as_str(), self.pod.as_str()];
        let theirs = vec![other.namespace.as_str(), other.pod.as_str()];
        assert(mine.deep_view() =~= seq![self.namespace@, self.pod@]);
        assert(theirs.deep_view() =~= seq![other.namespace@, other.pod@]);
        texts_at_most(&mine, &theirs)
    }
}

impl Line for PendingRow {
    open spec fn line(v: PendingModel) -> Seq<char> {
        row(seq![full_name(v.namespace, v.pod), v.reason])
    }

    fn render(&self) -> (r: String) {
        let name = write_full_name(self.namespace.as_str(), self.pod.as_str());
        let fields = vec![name.as_str(), self.reason.as_str()];
        assert(fields.deep_view() =~= seq![name@, self.reason@]);
        write_row(&fields)
    }
}

/// Lists the pods that wait to be placed, by namespace and name.
pub fn run(args: &PendingArgs, objects: &Vec<Json>) -> (r: Report)
    ensures
        reports(
            r,
            lines_of::<PendingRow>(pending_listing(objects.deep_view())),
            args.limit,
        ),
{
    let ghost all = objects.deep_view();
    let ghost f = pending_row();
    let mut rows: Vec<PendingRow> = Vec::new();
    assert(views(rows@) =~= gathered(all.take(0), f));
    for i in 0..objects.len()
        invariant
            all == objects.deep_view(),
            f == pending_row(),
            views(rows@) == gathered(all.take(i as int), f),
    {
        proof {
            gathered_step(all, f, i as int);
        }
        assert(objects@[i as int]@ == all[i as int]);
        let ghost before = views(rows@);
        match extract_pending_row(&objects[i]) {
            Some(item) => {
                rows.push(item);
                assert(views(rows@) =~= before + seq![item@]);
            },
            None => {
                assert(before =~= before + seq![]);
            },
        }
    }
    assert(all.take(all.len() as int) =~= all);
    let ordered = sort(rows);
    report_rows(render_all(&ordered), args.limit)
}

/// A condition that says why the pod is not placed: of the type `PodScheduled`, at `False`, with a
/// message.
pub open spec fn says_why(c: JsonView, m: Seq<char>) -> bool {
    &&& c.get("type"@) == Some(JsonView::Text("PodScheduled"@))
    &&& c.get("status"@) == Some(JsonView::Text("False"@))
    &&& c.get("message"@) == Some(JsonView::Text(m))
}

/// A condition that does not say why the pod is not placed.
pub open spec fn says_nothing(c: JsonView) -> bool {
    ||| c.get("type"@) != Some(JsonView::Text("PodScheduled"@))
    ||| c.get("status"@) != Some(JsonView::Text("False"@))
    ||| text_of(c.get("message"@)) is None
}

/// A pod waits just where its phase is `Pending`. Its row shows where it is and the message of the
/// first condition that says why it is not placed, or `-`.
pub proof fn pods_wait_by_their_phase(pod: JsonView, i: int, m: Seq<char>)
    ensures
        pending(pod) is Some <==> inner(pod, "status"@, "phase"@) == Some(JsonView::Text("Pending"@)),
        pending(pod) is Some ==> {
            let row = pending(pod)->0;
            let conditions = list_of(inner(pod, "status"@, "conditions"@));
            &&& row.namespace == said(inner(pod, "metadata"@, "namespace"@), ""@)
            &&& row.pod == said(inner(pod, "metadata"@, "name"@), ""@)
            &&& 0 <= i < conditions.len() && says_why(conditions[i], m) && (forall|k: int|
                0 <= k < i ==> says_nothing(#[trigger] conditions[k])) ==> row.reason == m
            &&& (forall|k: int| 0 <= k < conditions.len() ==> says_nothing(#[trigger] conditions[k])) ==> row.reason
                == "-"@
        },
{
    first_that_says_why(list_of(inner(pod, "status"@, "conditions"@)), i, m);
}

proof fn first_that_says_why(items: Seq<JsonView>, i: int, m: Seq<char>)
    ensures
        0 <= i < items.len() && says_why(items[i], m) && (forall|k: int| 0 <= k < i ==> says_nothing(#[trigger] items[k]))
            ==> first_unscheduled(items) == Some(m),
        (forall|k: int| 0 <= k < items.len() ==> says_nothing(#[trigger] items[k])) ==> first_unscheduled(items) is None,
    decreases items.len(),
{
    if items.len() > 0 {
        let rest = items.drop_first();
        first_that_says_why(rest, i - 1, m);
        if 0 < i < items.len() && (forall|k: int| 0 <= k < i ==> says_nothing(#[trigger] items[k])) {
            assert(says_nothing(items[0]));
            assert(rest[i - 1] == items[i]);
            assert forall|k: int| 0 <= k < i - 1 implies says_nothing(#[trigger] rest[k]) by {
                assert(says_nothing(items[k + 1]));
            }
        }
        if forall|k: int| 0 <= k < items.len() ==> says_nothing(#[trigger] items[k]) {
            assert(says_nothing(items[0]));
            assert forall|k: int| 0 <= k < rest.len() implies says_nothing(#[trigger] rest[k]) by {
                assert(says_nothing(items[k + 1]));
            }
        }
    }
}

/// The pods that wait, in the order in which they are shown.
pub open spec fn pending_listing(objects: Seq<JsonView>) -> Seq<PendingModel> {
    sorted::<PendingRow>(gathered(objects, pending_row()))
}

/// Every pod that waits is listed and no other, by namespace and name.
pub proof fn pending_pods_are_listed(objects: Seq<JsonView>, r: PendingModel)
    ensures
        pending_listing(objects).contains(r) <==> exists|p: int|
            0 <= p < objects.len() && pending(#[trigger] objects[p]) == Some(r),
        forall|i: int, j: int|
            0 <= i < j < pending_listing(objects).len() ==> texts_le(
                seq![(#[trigger] pending_listing(objects)[i]).namespace, pending_listing(objects)[i].pod],
                seq![(#[trigger] pending_listing(objects)[j]).namespace, pending_listing(objects)[j].pod],
            ),
        r.namespace.len() == 0 ==> PendingRow::line(r) == row(seq![r.pod, r.reason]),
        r.namespace.len() > 0 ==> PendingRow::line(r) == row(seq![r.namespace + seq!['/'] + r.pod, r.reason]),
{
    let f = pending_row();
    let all = gathered(objects, f);
    let out = pending_listing(objects);
    sorted_holds::<PendingRow>(all, r);
    sorted_is_a_stable_sort::<PendingRow>(all);
    gathered_holds(objects, f, r);
    assert forall|i: int, j: int| 0 <= i < j < out.len() implies texts_le(
        seq![(#[trigger] out[i]).namespace, out[i].pod],
        seq![(#[trigger] out[j]).namespace, out[j].pod],
    ) by {
        assert(PendingRow::le(out[i], out[j]));
    }
    assert forall|p: int| 0 <= p < objects.len() implies f(#[trigger] objects[p]).contains(r) == (pending(objects[p])
        == Some(r)) by {
        if pending(objects[p]) == Some(r) {
            assert(f(objects[p])[0] == r);
        }
    }
    if exists|p: int| 0 <= p < objects.len() && pending(#[trigger] objects[p]) == Some(r) {
        let p = choose|p: int| 0 <= p < objects.len() && pending(#[trigger] objects[p]) == Some(r);
        assert(f(objects[p]).contains(r));
    }
    reveal_strlit("/");
    assert("/"@ =~= seq!['/']);
}

} // verus!
