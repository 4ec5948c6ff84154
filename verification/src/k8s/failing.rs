//! Pods that neither run nor have succeeded.
use crate::gather::{gathered, gathered_holds, gathered_step};
use crate::k8s::get::place;
use crate::k8s::images::{full_name, write_full_name};
use crate::k8s::podtable::listed_statuses;
use crate::k8s::restarts::{
    container_status_reason, first_container_with_a_reason_counts, first_reason, gives_none, gives_reason,
};
use crate::order::{
    lines_of, render_all, sort, sorted, sorted_holds, sorted_is_a_stable_sort, texts_at_most, texts_le,
    texts_le_total, texts_le_transitive, views, Line, Ranked,
};
use crate::output::{report_rows, reports, Report};
use crate::text::{row, same, write_row};
use crate::value::{
    at, get_at, inner, opt, or_text, said, str_of, text_of, text_or, Json, JsonView,
};
use vstd::prelude::*;
use vstd::string::*;

verus! {

/// The arguments of the command.
#[derive(Debug)]
pub struct FailingArgs {
    pub namespace: Option<String>,
    pub all_namespaces: bool,
    pub selector: Option<String>,
    pub limit: Option<usize>,
}

/// A pod that fails.
#[derive(Debug, PartialEq)]
pub struct FailingRow {
    pub namespace: String,
    pub pod: String,
    pub phase: String,
    pub reason: String,
}

/// What a `FailingRow` says.
#[verifier::ext_equal]
pub struct FailingModel {
    pub namespace: Seq<char>,
    pub pod: Seq<char>,
    pub phase: Seq<char>,
    pub reason: Seq<char>,
}

impl View for FailingRow {
    type V = FailingModel;

    open spec fn view(&self) -> FailingModel {
        FailingModel {
            namespace: self.namespace@,
            pod: self.pod@,
            phase: self.phase@,
            reason: self.reason@,
        }
    }
}

/// The row of a pod whose phase is neither `Running` nor `Succeeded`: with the reason that its
/// status gives, else the first that a container gives, else `-`.
pub open spec fn failing(pod: JsonView) -> Option<FailingModel> {
    let status = pod.get("status"@);
    match text_of(at(status, "phase"@)) {
        Some(phase) => if phase == "Running"@ || phase == "Succeeded"@ {
            None
        } else {
            Some(
                FailingModel {
                    namespace: place(pod)[0],
                    pod: place(pod)[1],
                    phase,
                    reason: match text_of(at(status, "reason"@)) {
                        Some(r) => r,
                        None => or_text(first_reason(pod), "-"@),
                    },
                },
            )
        },
        None => None,
    }
}

/// The row of a pod that fails.
pub fn extract_failing_row(pod: &Json) -> (r: Option<FailingRow>)
    ensures
        opt(r) == failing(pod@),
{
    let status = pod.get("status");
    let phase = match str_of(get_at(status, "phase")) {
        Some(phase) => phase,
        None => {
            return None;
        },
    };
    if same(phase, "Running") || same(phase, "Succeeded") {
        return None;
    }
    let metadata = pod.get("metadata");
    let reason = match str_of(get_at(status, "reason")) {
        Some(r) => r.to_owned(),
        None => match container_status_reason(pod) {
            Some(r) => r,
            None => "-".to_owned(),
        },
    };
    Some(
        FailingRow {
            namespace: text_or(str_of(get_at(metadata, "namespace")), "").to_owned(),
            pod: text_or(str_of(get_at(metadata, "name")), "").to_owned(),
            phase: phase.to_owned(),
            reason,
        },
    )
}

/// The row of one object, where it has one.
pub open spec fn failing_row() -> spec_fn(JsonView) -> Seq<FailingModel> {
    |v: JsonView|
        match failing(v) {
            Some(r) => seq![r],
            None => seq![],
        }
}

impl Ranked for FailingRow {
    /// By namespace, then by name.
    open spec fn le(a: FailingModel, b: FailingModel) -> bool {
        texts_le(seq![a.namespace, a.pod], seq![b.namespace, b.pod])
    }

    proof fn le_total(a: FailingModel, b: FailingModel) {
        texts_le_total(seq![a.namespace, a.pod], seq![b.namespace, b.pod]);
    }

    proof fn le_transitive(a: FailingModel, b: FailingModel, c: FailingModel) {
        texts_le_transitive(seq![a.namespace, a.pod], seq![b.namespace, b.pod], seq![c.namespace, c.pod]);
    }

    fn at_most(&self, other: &Self) -> (r: bool) {
        let mine = vec![self.namespace.as_str(), self.pod.as_str()];
        let theirs = vec![other.namespace.as_str(), other.pod.as_str()];
        assert(mine.deep_view() =~= seq![self.namespace@, self.pod@]);
        assert(theirs.deep_view() =~= seq![other.namespace@, other.pod@]);
        texts_at_most(&mine, &theirs)
    }
}

impl Line for FailingRow {
    open spec fn line(v: FailingModel) -> Seq<char> {
        row(seq![full_name(v.namespace, v.pod), v.phase, v.reason])
    }

    fn render(&self) -> (r: String) {
        let name = write_full_name(self.namespace.as_str(), self.pod.as_str());
        let fields = vec![name.as_str(), self.phase.as_str(), self.reason.as_str()];
        assert(fields.deep_view() =~= seq![name@, self.phase@, self.reason@]);
        write_row(&fields)
    }
}

/// Lists the pods that fail, by namespace and name.
pub fn run(args: &FailingArgs, objects: &Vec<Json>) -> (r: Report)
    ensures
        reports(
            r,
            lines_of::<FailingRow>(failing_listing(objects.deep_view())),
            args.limit,
        ),
{
    let ghost all = objects.deep_view();
    let ghost f = failing_row();
    let mut rows: Vec<FailingRow> = Vec::new();
    assert(views(rows@) =~= gathered(all.take(0), f));
    for i in 0..objects.len()
        invariant
            all == objects.deep_view(),
            f == failing_row(),
            views(rows@) == gathered(all.take(i as int), f),
    {
        proof {
            gathered_step(all, f, i as int);
        }
        assert(objects@[i as int]@ == all[i as int]);
        let ghost before = views(rows@);
        match extract_failing_row(&objects[i]) {
            Some(item) => {
                rows.push(item);
                assert(views(rows@) =~= before + seq![item@]);
            },
            None => {
                assert(before =~= before + seq![]);
            },
        }
    }
    assert(all.take(all.len() as int) =~= all);
    let ordered = sort(rows);
    report_rows(render_all(&ordered), args.limit)
}

/// A pod fails just where its phase is told and is neither `Running` nor `Succeeded`. Its row shows
/// where it is and the phase; the reason is the pod's own, else the first that a container gives,
/// else `-`.
pub proof fn pods_fail_by_their_phase(pod: JsonView, phase: Seq<char>, i: int, r: Seq<char>)
    ensures
        inner(pod, "status"@, "phase"@) == Some(JsonView::Text(phase)) ==> (failing(pod) is Some <==> phase != "Running"@
            && phase != "Succeeded"@),
        (forall|t: Seq<char>| inner(pod, "status"@, "phase"@) != Some(#[trigger] told(t))) ==> failing(pod) is None,
        failing(pod) is Some ==> {
            let row = failing(pod)->0;
            &&& inner(pod, "status"@, "phase"@) == Some(JsonView::Text(row.phase))
            &&& row.namespace == said(inner(pod, "metadata"@, "namespace"@), ""@)
            &&& row.pod == said(inner(pod, "metadata"@, "name"@), ""@)
            &&& inner(pod, "status"@, "reason"@) == Some(JsonView::Text(r)) ==> row.reason == r
            &&& text_of(inner(pod, "status"@, "reason"@)) is None ==> {
                &&& 0 <= i < listed_statuses(pod).len() && gives_reason(listed_statuses(pod)[i], r) && (forall|k: int|
                    0 <= k < i ==> gives_none(#[trigger] listed_statuses(pod)[k])) ==> row.reason == r
                &&& (forall|k: int|
                    0 <= k < listed_statuses(pod).len() ==> gives_none(#[trigger] listed_statuses(pod)[k])) ==> row.reason
                    == "-"@
            }
        },
{
    first_container_with_a_reason_counts(pod, i, r);
    if let Some(JsonView::Text(t)) = inner(pod, "status"@, "phase"@) {
        assert(told(t) == JsonView::Text(t));
    }
}

/// A text as a JSON value.
pub open spec fn told(t: Seq<char>) -> JsonView {
    JsonView::Text(t)
}

/// The pods that fail, in the order in which they are shown.
pub open spec fn failing_listing(objects: Seq<JsonView>) -> Seq<FailingModel> {
    sorted::<FailingRow>(gathered(objects, failing_row()))
}

/// Every pod that fails is listed and no other, by namespace and name.
pub proof fn failing_pods_are_listed(objects: Seq<JsonView>, r: FailingModel)
    ensures
        failing_listing(objects).contains(r) <==> exists|p: int|
            0 <= p < objects.len() && failing(#[trigger] objects[p]) == Some(r),
        forall|i: int, j: int|
            0 <= i < j < failing_listing(objects).len() ==> texts_le(
                seq![(#[trigger] failing_listing(objects)[i]).namespace, failing_listing(objects)[i].pod],
                seq![(#[trigger] failing_listing(objects)[j]).namespace, failing_listing(objects)[j].pod],
            ),
        r.namespace.len() == 0 ==> FailingRow::line(r) == row(seq![r.pod, r.phase, r.reason]),
        r.namespace.len() > 0 ==> FailingRow::line(r) == row(seq![r.namespace + seq!['/'] + r.pod, r.phase, r.reason]),
{
    let f = failing_row();
    let all = gathered(objects, f);
    let out = failing_listing(objects);
    sorted_holds::<FailingRow>(all, r);
    sorted_is_a_stable_sort::<FailingRow>(all);
    gathered_holds(objects, f, r);
    assert forall|i: int, j: int| 0 <= i < j < out.len() implies texts_le(
        seq![(#[trigger] out[i]).namespace, out[i].pod],
        seq![(#[trigger] out[j]).namespace, out[j].pod],
    ) by {
        assert(FailingRow::le(out[i], out[j]));
    }
    assert forall|p: int| 0 <= p < objects.len() implies f(#[trigger] objects[p]).contains(r) == (failing(objects[p])
        == Some(r)) by {
        if failing(objects[p]) == Some(r) {
            assert(f(objects[p])[0] == r);
        }
    }
    if exists|p: int| 0 <= p < objects.len() && failing(#[trigger] objects[p]) == Some(r) {
        let p = choose|p: int| 0 <= p < objects.len() && failing(#[trigger] objects[p]) == Some(r);
        assert(f(objects[p]).contains(r));
    }
    reveal_strlit("/");
    assert("/"@ =~= seq!['/']);
}

} // verus!
