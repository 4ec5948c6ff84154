//! Containers that restarted.
use crate::gather::{gathered, gathered_holds, gathered_step};
use crate::k8s::get::place;
use crate::k8s::images::{full_name, write_full_name};
use crate::k8s::podtable::listed_statuses;
use crate::number::{decimal, write_u64};
use crate::order::{
    lines_of, render_all, sort, sorted, sorted_holds, sorted_is_a_stable_sort, texts_at_most, texts_le,
    texts_le_total, texts_le_transitive, views, Line, Ranked,
};
use crate::output::{report_rows, reports, Report};
use crate::text::{row, write_row};
use crate::value::{
    array_of, at, deeper, get_at, inner, items_of, opt, or_int, or_none, or_text, said, str_of, text_of, text_or,
    u64_of, unsigned_of, Json, JsonView,
};
use vstd::prelude::*;
use vstd::string::*;

verus! {

/// The arguments of the command.
#[derive(Debug)]
pub struct RestartsArgs {
    pub namespace: Option<String>,
    pub all_namespaces: bool,
    pub selector: Option<String>,
    /// How often a container must have restarted to be listed.
    pub min: u64,
    pub limit: Option<usize>,
}

/// One container and how often it restarted.
#[derive(Debug, PartialEq)]
pub struct RestartRow {
    pub namespace: String,
    pub pod: String,
    pub container: String,
    pub restarts: u64,
    pub last_reason: String,
}

/// What a `RestartRow` says.
#[verifier::ext_equal]
pub struct RestartModel {
    pub namespace: Seq<char>,
    pub pod: Seq<char>,
    pub container: Seq<char>,
    pub restarts: int,
    pub last_reason: Seq<char>,
}

impl View for RestartRow {
    type V = RestartModel;

    open spec fn view(&self) -> RestartModel {
        RestartModel {
            namespace: self.namespace@,
            pod: self.pod@,
            container: self.container@,
            restarts: self.restarts as int,
            last_reason: self.last_reason@,
        }
    }
}

/// The row of one container status of a pod.
pub open spec fn restart_row(pod: JsonView, cs: JsonView) -> RestartModel {
    RestartModel {
        namespace: place(pod)[0],
        pod: place(pod)[1],
        container: or_text(text_of(cs.get("name"@)), ""@),
        restarts: or_int(u64_of(cs.get("restartCount"@)), 0),
        last_reason: or_text(text_of(at(at(cs.get("lastState"@), "terminated"@), "reason"@)), "-"@),
    }
}

/// The rows of a pod, one per container status.
pub open spec fn restart_rows(pod: JsonView) -> Seq<RestartModel> {
    let items = or_none(items_of(at(pod.get("status"@), "containerStatuses"@)));
    Seq::new(items.len(), |i: int| restart_row(pod, items[i]))
}

fn read_restart_row(pod: &Json, cs: &Json) -> (r: RestartRow)
    ensures
        r@ == restart_row(pod@, cs@),
{
    let metadata = pod.get("metadata");
    let restarts: u64 = match unsigned_of(cs.get("restartCount")) {
        Some(n) => n,
        None => 0,
    };
    RestartRow {
        namespace: text_or(str_of(get_at(metadata, "namespace")), "").to_owned(),
        pod: text_or(str_of(get_at(metadata, "name")), "").to_owned(),
        container: text_or(str_of(cs.get("name")), "").to_owned(),
        restarts,
        last_reason: text_or(str_of(get_at(get_at(cs.get("lastState"), "terminated"), "reason")), "-").to_owned(),
    }
}

/// The rows of a pod, one per container status.
pub fn extract_restart_rows(pod: &Json) -> (r: Vec<RestartRow>)
    ensures
        views(r@) == restart_rows(pod@),
{
    let mut rows: Vec<RestartRow> = Vec::new();
    if let Some(items) = array_of(get_at(pod.get("status"), "containerStatuses")) {
        let ghost all = items.deep_view();
        for i in 0..items.len()
            invariant
                all == items.deep_view(),
                all == or_none(items_of(at(pod@.get("status"@), "containerStatuses"@))),
                views(rows@) =~= restart_rows(pod@).take(i as int),
        {
            let ghost before = views(rows@);
            assert(items@[i as int]@ == all[i as int]);
            let item = read_restart_row(pod, &items[i]);
            rows.push(item);
            assert(views(rows@) =~= before.push(item@));
        }
    }
    assert(views(rows@) =~= restart_rows(pod@));
    rows
}

/// The reason why a container waits, else why it ended.
pub open spec fn state_reason(cs: JsonView) -> Option<Seq<char>> {
    let state = cs.get("state"@);
    match text_of(at(at(state, "waiting"@), "reason"@)) {
        Some(r) => Some(r),
        None => text_of(at(at(state, "terminated"@), "reason"@)),
    }
}

pub open spec fn first_reason_in(items: Seq<JsonView>) -> Option<Seq<char>>
    decreases items.len(),
{
    if items.len() == 0 {
        None
    } else {
        match state_reason(items[0]) {
            Some(r) => Some(r),
            None => first_reason_in(items.drop_first()),
        }
    }
}

/// The first reason that one of a pod's containers gives for waiting or having ended.
pub open spec fn first_reason(pod: JsonView) -> Option<Seq<char>> {
    first_reason_in(or_none(items_of(at(pod.get("status"@), "containerStatuses"@))))
}

/// The first reason that one of a pod's containers gives for waiting or having ended.
pub fn container_status_reason(pod: &Json) -> (r: Option<String>)
    ensures
        opt(r) == first_reason(pod@),
{
    let items = match array_of(get_at(pod.get("status"), "containerStatuses")) {
        Some(items) => items,
        None => {
            return None;
        },
    };
    let ghost all = items.deep_view();
    let mut i: usize = 0;
    assert(all.skip(0) =~= all);
    while i < items.len()
        invariant
            all == items.deep_view(),
            i <= items@.len(),
            first_reason(pod@) == first_reason_in(all.skip(i as int)),
        decreases items@.len() - i,
    {
        assert(all.skip(i as int)[0] == items@[i as int]@);
        assert(all.skip(i as int).drop_first() =~= all.skip(i + 1));
        let state = items[i].get("state");
        if let Some(r) = str_of(get_at(get_at(state, "waiting"), "reason")) {
            return Some(r.to_owned());
        }
        if let Some(r) = str_of(get_at(get_at(state, "terminated"), "reason")) {
            return Some(r.to_owned());
        }
        i += 1;
    }
    None
}

pub open spec fn container_place(v: RestartModel) -> Seq<Seq<char>> {
    seq![v.namespace, v.pod, v.container]
}

impl Ranked for RestartRow {
    /// The more restarts the earlier; then by namespace, pod and container.
    open spec fn le(a: RestartModel, b: RestartModel) -> bool {
        a.restarts > b.restarts || (a.restarts == b.restarts && texts_le(container_place(a), container_place(b)))
    }

    proof fn le_total(a: RestartModel, b: RestartModel) {
        texts_le_total(container_place(a), container_place(b));
    }

    proof fn le_transitive(a: RestartModel, b: RestartModel, c: RestartModel) {
        if a.restarts == b.restarts && b.restarts == c.restarts {
            texts_le_transitive(container_place(a), container_place(b), container_place(c));
        }
    }

    fn at_most(&self, other: &Self) -> (r: bool) {
        let mine = vec![self.namespace.as_str(), self.pod.as_str(), self.container.as_str()];
        let theirs = vec![other.namespace.as_str(), other.pod.as_str(), other.container.as_str()];
        assert(mine.deep_view() =~= container_place(self@));
        assert(theirs.deep_view() =~= container_place(other@));
        self.restarts > other.restarts || (self.restarts == other.restarts && texts_at_most(&mine, &theirs))
    }
}

impl Line for RestartRow {
    open spec fn line(v: RestartModel) -> Seq<char> {
        row(seq![full_name(v.namespace, v.pod), v.container, decimal(v.restarts as nat), v.last_reason])
    }

    fn render(&self) -> (r: String) {
        let name = write_full_name(self.namespace.as_str(), self.pod.as_str());
        let count = write_u64(self.restarts);
        let fields = vec![name.as_str(), self.container.as_str(), count.as_str(), self.last_reason.as_str()];
        assert(fields.deep_view() =~= seq![name@, self.container@, count@, self.last_reason@]);
        write_row(&fields)
    }
}

/// Those rows that restarted often enough.
pub open spec fn often_enough(min: u64) -> spec_fn(RestartModel) -> Seq<RestartModel> {
    |r: RestartModel|
        if r.restarts >= min {
            seq![r]
        } else {
            seq![]
        }
}

/// The rows of one pod whose containers restarted often enough.
pub open spec fn often_restarted(min: u64) -> spec_fn(JsonView) -> Seq<RestartModel> {
    |pod: JsonView| gathered(restart_rows(pod), often_enough(min))
}

fn collect_restarts(rows: &mut Vec<RestartRow>, pod: &Json, min: u64)
    ensures
        views(final(rows)@) == views(old(rows)@) + often_restarted(min)(pod@),
{
    let found = extract_restart_rows(pod);
    let ghost model = restart_rows(pod@);
    let ghost f = often_enough(min);
    let ghost before = views(rows@);
    assert(before + gathered(model.take(0), f) =~= before);
    for item in it: found
        invariant
            it.seq() == found@,
            views(found@) == model,
            f == often_enough(min),
            views(rows@) == before + gathered(model.take(it.index()), f),
    {
        let ghost so_far = gathered(model.take(it.index()), f);
        proof {
            gathered_step(model, f, it.index());
            assert(item@ == model[it.index()]);
        }
        if item.restarts >= min {
            let ghost v = item@;
            let ghost old_rows = views(rows@);
            rows.push(item);
            assert(views(rows@) =~= old_rows.push(v));
            assert(views(rows@) =~= before + (so_far + seq![v]));
        } else {
            assert(so_far + seq![] =~= so_far);
        }
    }
    assert(model.take(model.len() as int) =~= model);
}

/// Lists the containers that restarted often enough, the most restarted first.
pub fn run(args: &RestartsArgs, objects: &Vec<Json>) -> (r: Report)
    ensures
        reports(
            r,
            lines_of::<RestartRow>(restart_listing(objects.deep_view(), args.min)),
            args.limit,
        ),
{
    let ghost all = objects.deep_view();
    let ghost f = often_restarted(args.min);
    let mut rows: Vec<RestartRow> = Vec::new();
    assert(views(rows@) =~= gathered(all.take(0), f));
    for i in 0..objects.len()
        invariant
            all == objects.deep_view(),
            f == often_restarted(args.min),
            views(rows@) == gathered(all.take(i as int), f),
    {
        proof {
            gathered_step(all, f, i as int);
        }
        assert(objects@[i as int]@ == all[i as int]);
        collect_restarts(&mut rows, &objects[i], args.min);
    }
    assert(all.take(all.len() as int) =~= all);
    let ordered = sort(rows);
    report_rows(render_all(&ordered), args.limit)
}

/// What is said of a container status of a pod: where the pod is, the container's name, how often
/// it restarted (never, where that is not said) and why it last ended.
pub open spec fn tells(r: RestartModel, pod: JsonView, cs: JsonView) -> bool {
    &&& r.namespace == said(inner(pod, "metadata"@, "namespace"@), ""@)
    &&& r.pod == said(inner(pod, "metadata"@, "name"@), ""@)
    &&& r.container == said(cs.get("name"@), ""@)
    &&& match cs.get("restartCount"@) {
        Some(JsonView::Int(n)) if n >= 0 => r.restarts == n,
        _ => r.restarts == 0,
    }
    &&& r.last_reason == said(deeper(cs, "lastState"@, "terminated"@, "reason"@), "-"@)
}

/// The rows for some least number of restarts, in the order in which they are shown.
pub open spec fn restart_listing(objects: Seq<JsonView>, min: u64) -> Seq<RestartModel> {
    sorted::<RestartRow>(gathered(objects, often_restarted(min)))
}

proof fn one_pod_is_listed(pod: JsonView, min: u64, r: RestartModel)
    ensures
        often_restarted(min)(pod).contains(r) <==> r.restarts >= min && exists|c: int|
            0 <= c < listed_statuses(pod).len() && tells(r, pod, #[trigger] listed_statuses(pod)[c]),
{
    let rows = restart_rows(pod);
    let items = listed_statuses(pod);
    let f = often_enough(min);
    gathered_holds(rows, f, r);
    assert forall|c: int| 0 <= c < items.len() implies tells(r, pod, #[trigger] items[c]) == (r == rows[c]) by {
        assert(rows[c] == restart_row(pod, items[c]));
    }
    if often_restarted(min)(pod).contains(r) {
        let c = choose|c: int| 0 <= c < rows.len() && f(#[trigger] rows[c]).contains(r);
        assert(f(rows[c])[0] == r);
        assert(tells(r, pod, items[c]));
    }
    if r.restarts >= min && exists|c: int| 0 <= c < items.len() && tells(r, pod, #[trigger] items[c]) {
        let c = choose|c: int| 0 <= c < items.len() && tells(r, pod, #[trigger] items[c]);
        assert(f(rows[c])[0] == r);
        assert(f(rows[c]).contains(r));
    }
}

/// A container status of one of the pods is listed just where it restarted at least so often, and
/// nothing else is listed: one that restarted exactly so often is, and all are where no restart is
/// asked for.
pub proof fn restarts_are_listed_from_the_least_on(objects: Seq<JsonView>, min: u64, r: RestartModel)
    ensures
        restart_listing(objects, min).contains(r) <==> r.restarts >= min && exists|p: int, c: int|
            0 <= p < objects.len() && 0 <= c < listed_statuses(objects[p]).len() && tells(
                r,
                objects[p],
                #[trigger] listed_statuses(objects[p])[c],
            ),
{
    let f = often_restarted(min);
    let all = gathered(objects, f);
    sorted_holds::<RestartRow>(all, r);
    gathered_holds(objects, f, r);
    if all.contains(r) {
        let p = choose|p: int| 0 <= p < objects.len() && f(#[trigger] objects[p]).contains(r);
        one_pod_is_listed(objects[p], min, r);
    }
    if r.restarts >= min && exists|p: int, c: int|
        0 <= p < objects.len() && 0 <= c < listed_statuses(objects[p]).len() && tells(
            r,
            objects[p],
            #[trigger] listed_statuses(objects[p])[c],
        ) {
        let (p, c) = choose|p: int, c: int|
            0 <= p < objects.len() && 0 <= c < listed_statuses(objects[p]).len() && tells(
                r,
                objects[p],
                #[trigger] listed_statuses(objects[p])[c],
            );
        one_pod_is_listed(objects[p], min, r);
        assert(f(objects[p]).contains(r));
    }
}

/// Of one pod as many containers are listed as it has statuses, where no restart is asked for; for
/// a least number, those of them are listed that restarted at least so often, each as often as it
/// stands there.
pub proof fn least_number_only_leaves_out(objects: Seq<JsonView>, min: u64)
    ensures
        gathered(objects, often_restarted(min)) == gathered(objects, often_restarted(0)).filter(
            |r: RestartModel| r.restarts >= min,
        ),
        forall|pod: JsonView| #[trigger] often_restarted(0)(pod).len() == listed_statuses(pod).len(),
    decreases objects.len(),
{
    let keep = |r: RestartModel| r.restarts >= min;
    assert forall|pod: JsonView| #[trigger] often_restarted(0)(pod).len() == listed_statuses(pod).len() by {
        all_rows_restarted(restart_rows(pod));
    }
    if objects.len() > 0 {
        let init = objects.drop_last();
        least_number_only_leaves_out(init, min);
        rows_are_filtered(restart_rows(objects.last()), min);
        Seq::filter_distributes_over_add(
            gathered(init, often_restarted(0)),
            often_restarted(0)(objects.last()),
            keep,
        );
    } else {
        reveal(Seq::filter);
    }
}

proof fn all_rows_restarted(rows: Seq<RestartModel>)
    requires
        forall|i: int| 0 <= i < rows.len() ==> (#[trigger] rows[i]).restarts >= 0,
    ensures
        gathered(rows, often_enough(0)) == rows,
    decreases rows.len(),
{
    if rows.len() > 0 {
        let init = rows.drop_last();
        assert forall|i: int| 0 <= i < init.len() implies (#[trigger] init[i]).restarts >= 0 by {
            assert(rows[i].restarts >= 0);
        }
        all_rows_restarted(init);
        assert(rows[rows.len() - 1].restarts >= 0);
        assert(init + seq![rows.last()] =~= rows);
    }
}

proof fn rows_are_filtered(rows: Seq<RestartModel>, min: u64)
    requires
        forall|i: int| 0 <= i < rows.len() ==> (#[trigger] rows[i]).restarts >= 0,
    ensures
        gathered(rows, often_enough(min)) == gathered(rows, often_enough(0)).filter(|r: RestartModel| r.restarts >= min),
    decreases rows.len(),
{
    let keep = |r: RestartModel| r.restarts >= min;
    all_rows_restarted(rows);
    reveal(Seq::filter);
    if rows.len() > 0 {
        let init = rows.drop_last();
        assert forall|i: int| 0 <= i < init.len() implies (#[trigger] init[i]).restarts >= 0 by {
            assert(rows[i].restarts >= 0);
        }
        rows_are_filtered(init, min);
        all_rows_restarted(init);
        let before = gathered(init, often_enough(min));
        assert(before + seq![rows.last()] =~= before.push(rows.last()));
        assert(before + seq![] =~= before);
    }
}

/// The most restarted come first; those that restarted as often come by namespace, pod and
/// container. A row shows where the pod is, the container, the number and the reason.
pub proof fn most_restarted_come_first(objects: Seq<JsonView>, min: u64, i: int, j: int)
    requires
        0 <= i < j < restart_listing(objects, min).len(),
    ensures
        ({
            let a = restart_listing(objects, min)[i];
            let b = restart_listing(objects, min)[j];
            &&& a.restarts >= b.restarts
            &&& a.restarts == b.restarts ==> texts_le(
                seq![a.namespace, a.pod, a.container],
                seq![b.namespace, b.pod, b.container],
            )
            &&& a.namespace.len() == 0 ==> RestartRow::line(a) == row(
                seq![a.pod, a.container, decimal(a.restarts as nat), a.last_reason],
            )
            &&& a.namespace.len() > 0 ==> RestartRow::line(a) == row(
                seq![a.namespace + seq!['/'] + a.pod, a.container, decimal(a.restarts as nat), a.last_reason],
            )
        }),
{
    let all = gathered(objects, often_restarted(min));
    sorted_is_a_stable_sort::<RestartRow>(all);
    assert(RestartRow::le(restart_listing(objects, min)[i], restart_listing(objects, min)[j]));
    reveal_strlit("/");
    assert("/"@ =~= seq!['/']);
}

/// The reason that a container status gives: what it waits for, else what it ended with.
pub open spec fn gives_reason(cs: JsonView, r: Seq<char>) -> bool {
    ||| deeper(cs, "state"@, "waiting"@, "reason"@) == Some(JsonView::Text(r))
    ||| text_of(deeper(cs, "state"@, "waiting"@, "reason"@)) is None && deeper(cs, "state"@, "terminated"@, "reason"@) == Some(
        JsonView::Text(r),
    )
}

/// A container status that gives no reason.
pub open spec fn gives_none(cs: JsonView) -> bool {
    text_of(deeper(cs, "state"@, "waiting"@, "reason"@)) is None && text_of(
        deeper(cs, "state"@, "terminated"@, "reason"@),
    ) is None
}

/// The reason of a pod's containers is that of the first that gives one, and there is none where
/// none gives one.
pub proof fn first_container_with_a_reason_counts(pod: JsonView, i: int, r: Seq<char>)
    ensures
        0 <= i < listed_statuses(pod).len() && gives_reason(listed_statuses(pod)[i], r) && (forall|k: int|
            0 <= k < i ==> gives_none(#[trigger] listed_statuses(pod)[k])) ==> first_reason(pod) == Some(r),
        (forall|k: int| 0 <= k < listed_statuses(pod).len() ==> gives_none(#[trigger] listed_statuses(pod)[k]))
            ==> first_reason(pod) is None,
{
    first_of_the_reasons(listed_statuses(pod), i, r);
}

proof fn first_of_the_reasons(items: Seq<JsonView>, i: int, r: Seq<char>)
    ensures
        0 <= i < items.len() && gives_reason(items[i], r) && (forall|k: int| 0 <= k < i ==> gives_none(#[trigger] items[k]))
            ==> first_reason_in(items) == Some(r),
        (forall|k: int| 0 <= k < items.len() ==> gives_none(#[trigger] items[k])) ==> first_reason_in(items) is None,
    decreases items.len(),
{
    if items.len() > 0 {
        let rest = items.drop_first();
        first_of_the_reasons(rest, i - 1, r);
        if 0 < i < items.len() && (forall|k: int| 0 <= k < i ==> gives_none(#[trigger] items[k])) {
            assert(gives_none(items[0]));
            assert(rest[i - 1] == items[i]);
            assert forall|k: int| 0 <= k < i - 1 implies gives_none(#[trigger] rest[k]) by {
                assert(gives_none(items[k + 1]));
            }
        }
        if forall|k: int| 0 <= k < items.len() ==> gives_none(#[trigger] items[k]) {
            assert(gives_none(items[0]));
            assert forall|k: int| 0 <= k < rest.len() implies gives_none(#[trigger] rest[k]) by {
                assert(gives_none(items[k + 1]));
            }
        }
    }
}

} // verus!
