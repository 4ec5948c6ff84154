//! Cluster events, the newest first.
use crate::gather::{gathered, gathered_holds, gathered_step};
use crate::k8s::discovery::{builtin, lookup_builtin};
use crate::order::{
    lines_of, render_all, sort, sorted, sorted_holds, sorted_is_a_stable_sort, text_at_most, text_le,
    text_le_antisymmetric, text_le_total, text_le_transitive, views, Line, Ranked,
};
use crate::output::{collapse_newlines, on_one_line, report_rows, reports, Error, Report};
use crate::text::{
    cut, cut_at_the_first, lowered, position_is_first, quote, quoted, row, same, same_ignoring_case, split_once, write_row,
};
use crate::value::{at, get_at, inner, or_text, said, str_of, text_of, text_or, Json, JsonView};
use vstd::prelude::*;
use vstd::string::*;

verus! {

/// The arguments of the command.
#[derive(Debug)]
pub struct EventsArgs {
    pub namespace: Option<String>,
    pub all_namespaces: bool,
    /// Keeps the events of one object, given as `KIND/NAME`.
    pub for_object: Option<String>,
    pub limit: Option<usize>,
}

/// One event.
#[derive(Debug, PartialEq)]
pub struct EventRow {
    pub last: String,
    pub event_type: String,
    pub reason: String,
    pub kind_name: String,
    pub message: String,
}

/// What an `EventRow` says.
#[verifier::ext_equal]
pub struct Event {
    pub last: Seq<char>,
    pub event_type: Seq<char>,
    pub reason: Seq<char>,
    pub kind_name: Seq<char>,
    pub message: Seq<char>,
}

impl View for EventRow {
    type V = Event;

    open spec fn view(&self) -> Event {
        Event {
            last: self.last@,
            event_type: self.event_type@,
            reason: self.reason@,
            kind_name: self.kind_name@,
            message: self.message@,
        }
    }
}

/// The kind and the name of the object that an event is about; empty where not given.
pub open spec fn involved(ev: JsonView) -> (Seq<char>, Seq<char>) {
    let object = ev.get("involvedObject"@);
    (or_text(text_of(at(object, "kind"@)), ""@), or_text(text_of(at(object, "name"@)), ""@))
}

/// When an event last occurred: the last time seen, else the event's own time, else the
/// first time seen, else `-`.
pub open spec fn last_seen(ev: JsonView) -> Seq<char> {
    match text_of(ev.get("lastTimestamp"@)) {
        Some(t) => t,
        None => match text_of(ev.get("eventTime"@)) {
            Some(t) => t,
            None => or_text(text_of(ev.get("firstTimestamp"@)), "-"@),
        },
    }
}

/// The row of an event. What the event lacks shows as `-`; its message is one line.
pub open spec fn event_row(ev: JsonView) -> Event {
    let (kind, name) = involved(ev);
    Event {
        last: last_seen(ev),
        event_type: or_text(text_of(ev.get("type"@)), "-"@),
        reason: or_text(text_of(ev.get("reason"@)), "-"@),
        kind_name: if kind.len() == 0 && name.len() == 0 {
            "-"@
        } else {
            kind + "/"@ + name
        },
        message: on_one_line(or_text(text_of(ev.get("message"@)), ""@)),
    }
}

/// The row of an event.
pub fn extract_event_row(ev: &Json) -> (r: EventRow)
    ensures
        r@ == event_row(ev@),
{
    let last = match str_of(ev.get("lastTimestamp")) {
        Some(t) => t,
        None => match str_of(ev.get("eventTime")) {
            Some(t) => t,
            None => text_or(str_of(ev.get("firstTimestamp")), "-"),
        },
    };
    let object = ev.get("involvedObject");
    let kind = text_or(str_of(get_at(object, "kind")), "");
    let name = text_or(str_of(get_at(object, "name")), "");
    let kind_name = if kind.is_empty() && name.is_empty() {
        "-".to_owned()
    } else {
        let mut out = kind.to_owned();
        out.append("/");
        out.append(name);
        out
    };
    EventRow {
        last: last.to_owned(),
        event_type: text_or(str_of(ev.get("type")), "-").to_owned(),
        reason: text_or(str_of(ev.get("reason")), "-").to_owned(),
        kind_name,
        message: collapse_newlines(text_or(str_of(ev.get("message")), "")),
    }
}

impl Ranked for EventRow {
    /// The later time comes first; at the same time, the order of `kind/name` decides.
    open spec fn le(a: Event, b: Event) -> bool {
        if a.last != b.last {
            text_le(b.last, a.last)
        } else {
            text_le(a.kind_name, b.kind_name)
        }
    }

    proof fn le_total(a: Event, b: Event) {
        text_le_total(a.last, b.last);
        text_le_total(a.kind_name, b.kind_name);
    }

    proof fn le_transitive(a: Event, b: Event, c: Event) {
        if a.last == b.last && b.last == c.last {
            text_le_transitive(a.kind_name, b.kind_name, c.kind_name);
        } else if a.last != b.last && b.last != c.last {
            text_le_transitive(c.last, b.last, a.last);
            if a.last == c.last {
                text_le_antisymmetric(a.last, b.last);
            }
        }
    }

    fn at_most(&self, other: &Self) -> (r: bool) {
        if !same(self.last.as_str(), other.last.as_str()) {
            text_at_most(other.last.as_str(), self.last.as_str())
        } else {
            text_at_most(self.kind_name.as_str(), other.kind_name.as_str())
        }
    }
}

impl Line for EventRow {
    open spec fn line(v: Event) -> Seq<char> {
        row(seq![v.last, v.event_type, v.reason, v.kind_name, v.message])
    }

    fn render(&self) -> (r: String) {
        let fields = vec![
            self.last.as_str(),
            self.event_type.as_str(),
            self.reason.as_str(),
            self.kind_name.as_str(),
            self.message.as_str(),
        ];
        assert(fields.deep_view() =~= seq![
            self.last@,
            self.event_type@,
            self.reason@,
            self.kind_name@,
            self.message@,
        ]);
        write_row(&fields)
    }
}

/// The line of one event: its fields with tabs between them.
pub fn format_event_row(event: &EventRow) -> (r: String)
    ensures
        r@ == EventRow::line(event@),
{
    event.render()
}

/// Puts the newest event first; events of the same time go by `kind/name`, and those that
/// share it too stay in their order.
pub fn sort_rows_desc(rows: &mut Vec<EventRow>)
    ensures
        views(final(rows)@) == sorted::<EventRow>(views(old(rows)@)),
{
    let mut taken: Vec<EventRow> = Vec::new();
    std::mem::swap(rows, &mut taken);
    let ordered = sort(taken);
    *rows = ordered;
}

/// Whether an event is about the object of that kind, whatever its case, and that name.
pub open spec fn about(ev: JsonView, kind: Seq<char>, name: Seq<char>) -> bool {
    lowered(involved(ev).0) == lowered(kind) && involved(ev).1 == name
}

/// Whether an event is about the object of that kind, whatever its case, and that name.
pub fn event_matches(ev: &Json, kind: &str, name: &str) -> (r: bool)
    ensures
        r == about(ev@, kind@, name@),
{
    let object = ev.get("involvedObject");
    let found_kind = text_or(str_of(get_at(object, "kind")), "");
    let found_name = text_or(str_of(get_at(object, "name")), "");
    same_ignoring_case(found_kind, kind) && same(found_name, name)
}

/// The row of an event, where the filter lets it through.
pub open spec fn filtered_row(filter: Option<(Seq<char>, Seq<char>)>) -> spec_fn(JsonView) -> Seq<Event> {
    |ev: JsonView|
        match filter {
            Some((kind, name)) => if about(ev, kind, name) {
                seq![event_row(ev)]
            } else {
                seq![]
            },
            None => seq![event_row(ev)],
        }
}

/// The rows of the events that the filter lets through, the newest first.
pub open spec fn event_rows(events: Seq<JsonView>, filter: Option<(Seq<char>, Seq<char>)>) -> Seq<Event> {
    sorted::<EventRow>(gathered(events, filtered_row(filter)))
}

/// The rows of the events that the filter lets through, the newest first.
pub fn select_events(events: &Vec<Json>, filter: &Option<(String, String)>) -> (r: Vec<EventRow>)
    ensures
        views(r@) == event_rows(events.deep_view(), filter.deep_view()),
{
    let ghost all = events.deep_view();
    let ghost f = filtered_row(filter.deep_view());
    let mut rows: Vec<EventRow> = Vec::new();
    assert(views(rows@) =~= gathered(all.take(0), f));
    for i in 0..events.len()
        invariant
            all == events.deep_view(),
            f == filtered_row(filter.deep_view()),
            views(rows@) == gathered(all.take(i as int), f),
    {
        proof {
            gathered_step(all, f, i as int);
        }
        let ev = &events[i];
        assert(ev@ == all[i as int]);
        let keep = match filter {
            Some((kind, name)) => event_matches(ev, kind.as_str(), name.as_str()),
            None => true,
        };
        let ghost before = views(rows@);
        if keep {
            rows.push(extract_event_row(ev));
            assert(views(rows@) =~= before + seq![event_row(ev@)]);
        } else {
            assert(before =~= before + seq![]);
        }
    }
    assert(all.take(all.len() as int) =~= all);
    sort(rows)
}

/// The rows of the events about one object, the newest first.
pub fn fetch_events_for(events: &Vec<Json>, kind: &str, name: &str) -> (r: Vec<EventRow>)
    ensures
        views(r@) == event_rows(events.deep_view(), Some((kind@, name@))),
{
    let filter = Some((kind.to_owned(), name.to_owned()));
    assert(filter.deep_view() == Some((kind@, name@)));
    select_events(events, &filter)
}

/// The kind and the name that `KIND/NAME` gives, a common kind by its proper name. `None`
/// where one of them is missing.
pub open spec fn object_filter(raw: Seq<char>) -> Option<(Seq<char>, Seq<char>)> {
    match cut(raw, '/') {
        Some((kind, name)) => if kind.len() == 0 || name.len() == 0 {
            None
        } else {
            Some((match builtin(kind) {
                Some(gvk) => gvk.kind,
                None => kind,
            }, name))
        },
        None => None,
    }
}

/// Reads the `KIND/NAME` of an object whose events are wanted.
pub fn parse_filter(raw: &str) -> (r: Result<(String, String), Error>)
    ensures
        match r {
            Ok(filter) => object_filter(raw@) == Some(filter.deep_view()),
            Err(e) => object_filter(raw@) is None && e.message@ == "--for expects KIND/NAME (got "@ + quoted(raw@)
                + ")"@,
        },
{
    if let Some((kind, name)) = split_once(raw, '/') {
        if !kind.is_empty() && !name.is_empty() {
            let proper = match lookup_builtin(kind) {
                Some(gvk) => gvk.kind,
                None => kind.to_owned(),
            };
            return Ok((proper, name.to_owned()));
        }
    }
    let mut message = "--for expects KIND/NAME (got ".to_owned();
    message.append(quote(raw).as_str());
    message.append(")");
    Err(Error { message })
}

/// Lists the events of the namespace in scope, or those of one object.
pub fn run(args: &EventsArgs, events: &Vec<Json>) -> (r: Result<Report, Error>)
    ensures
        match (args.for_object, r) {
            (None, Ok(report)) => reports(
                report,
                lines_of::<EventRow>(event_rows(events.deep_view(), None)),
                args.limit,
            ),
            (Some(raw), Ok(report)) => object_filter(raw@) is Some && reports(
                report,
                lines_of::<EventRow>(event_rows(events.deep_view(), object_filter(raw@))),
                args.limit,
            ),
            (None, Err(_)) => false,
            (Some(raw), Err(e)) => object_filter(raw@) is None && e.message@ == "--for expects KIND/NAME (got "@
                + quoted(raw@) + ")"@,
        },
{
    let filter = match &args.for_object {
        Some(raw) => match parse_filter(raw.as_str()) {
            Ok(filter) => Some(filter),
            Err(e) => {
                return Err(e);
            },
        },
        None => None,
    };
    let rows = select_events(events, &filter);
    Ok(report_rows(render_all(&rows), args.limit))
}

/// Of listed events the newest comes first, and those of the same time are in the order of
/// `kind/name`; none is lost and none is added.
pub proof fn newest_event_comes_first(events: Seq<JsonView>, filter: Option<(Seq<char>, Seq<char>)>, i: int, j: int)
    requires
        0 <= i < j < event_rows(events, filter).len(),
    ensures
        text_le(event_rows(events, filter)[j].last, event_rows(events, filter)[i].last),
        event_rows(events, filter)[i].last == event_rows(events, filter)[j].last ==> text_le(
            event_rows(events, filter)[i].kind_name,
            event_rows(events, filter)[j].kind_name,
        ),
        event_rows(events, filter).to_multiset() == gathered(events, filtered_row(filter)).to_multiset(),
{
    let rows = event_rows(events, filter);
    sorted_is_a_stable_sort::<EventRow>(gathered(events, filtered_row(filter)));
    assert(EventRow::le(rows[i], rows[j]));
    text_le_total(rows[i].last, rows[i].last);
}

/// The row of an event shows the last time seen, else the event's own time, else the first time
/// seen; its type, its reason and the object that it is about; and its message on one line. What is
/// not told shows as `-`, a message that is not told as nothing.
pub proof fn events_show_what_they_say(ev: JsonView)
    ensures
        event_row(ev).last == said(
            ev.get("lastTimestamp"@),
            said(ev.get("eventTime"@), said(ev.get("firstTimestamp"@), "-"@)),
        ),
        event_row(ev).event_type == said(ev.get("type"@), "-"@),
        event_row(ev).reason == said(ev.get("reason"@), "-"@),
        event_row(ev).message == on_one_line(said(ev.get("message"@), ""@)),
        ({
            let kind = said(inner(ev, "involvedObject"@, "kind"@), ""@);
            let name = said(inner(ev, "involvedObject"@, "name"@), ""@);
            &&& kind.len() > 0 || name.len() > 0 ==> event_row(ev).kind_name == kind + seq!['/'] + name
            &&& kind.len() == 0 && name.len() == 0 ==> event_row(ev).kind_name == "-"@
        }),
        EventRow::line(event_row(ev)) == row(
            seq![
                event_row(ev).last,
                event_row(ev).event_type,
                event_row(ev).reason,
                event_row(ev).kind_name,
                event_row(ev).message,
            ],
        ),
{
    reveal_strlit("/");
    assert("/"@ =~= seq!['/']);
}

/// Without a filter every event is listed; with one, just those about the object of that kind,
/// whatever its case, and exactly that name.
pub proof fn events_of_the_object_are_listed(events: Seq<JsonView>, kind: Seq<char>, name: Seq<char>, r: Event)
    ensures
        event_rows(events, None).contains(r) <==> exists|p: int|
            0 <= p < events.len() && event_row(#[trigger] events[p]) == r,
        event_rows(events, Some((kind, name))).contains(r) <==> exists|p: int|
            0 <= p < events.len() && event_row(#[trigger] events[p]) == r && said(
                inner(events[p], "involvedObject"@, "name"@),
                ""@,
            ) == name && lowered(said(inner(events[p], "involvedObject"@, "kind"@), ""@)) == lowered(kind),
        event_rows(events, None).len() == events.len(),
{
    let f = filtered_row(None);
    let g = filtered_row(Some((kind, name)));
    sorted_holds::<EventRow>(gathered(events, f), r);
    sorted_holds::<EventRow>(gathered(events, g), r);
    gathered_holds(events, f, r);
    gathered_holds(events, g, r);
    one_row_each(events);
    assert forall|p: int| 0 <= p < events.len() implies f(#[trigger] events[p]).contains(r) == (event_row(events[p]) == r) by {
        assert(f(events[p])[0] == event_row(events[p]));
    }
    assert forall|p: int| 0 <= p < events.len() implies g(#[trigger] events[p]).contains(r) == (event_row(events[p]) == r
        && said(inner(events[p], "involvedObject"@, "name"@), ""@) == name && lowered(
        said(inner(events[p], "involvedObject"@, "kind"@), ""@),
    ) == lowered(kind)) by {
        if about(events[p], kind, name) {
            assert(g(events[p])[0] == event_row(events[p]));
        }
    }
    if exists|p: int| 0 <= p < events.len() && event_row(#[trigger] events[p]) == r {
        let p = choose|p: int| 0 <= p < events.len() && event_row(#[trigger] events[p]) == r;
        assert(f(events[p]).contains(r));
    }
    if exists|p: int|
        0 <= p < events.len() && event_row(#[trigger] events[p]) == r && said(
            inner(events[p], "involvedObject"@, "name"@),
            ""@,
        ) == name && lowered(said(inner(events[p], "involvedObject"@, "kind"@), ""@)) == lowered(kind) {
        let p = choose|p: int|
            0 <= p < events.len() && event_row(#[trigger] events[p]) == r && said(
                inner(events[p], "involvedObject"@, "name"@),
                ""@,
            ) == name && lowered(said(inner(events[p], "involvedObject"@, "kind"@), ""@)) == lowered(kind);
        assert(g(events[p]).contains(r));
    }
}

proof fn one_row_each(events: Seq<JsonView>)
    ensures
        gathered(events, filtered_row(None)).len() == events.len(),
    decreases events.len(),
{
    if events.len() > 0 {
        one_row_each(events.drop_last());
    }
}

/// `KIND/NAME` is cut at its first slash. A common kind goes by its proper name whatever alias is
/// given, any other by the one given; without a slash, a kind or a name there is no filter.
pub proof fn filters_are_cut_at_the_slash(kind: Seq<char>, name: Seq<char>)
    requires
        !kind.contains('/'),
    ensures
        kind.len() > 0 && name.len() > 0 ==> object_filter(kind + seq!['/'] + name) == Some((match builtin(kind) {
            Some(gvk) => gvk.kind,
            None => kind,
        }, name)),
        kind.len() == 0 || name.len() == 0 ==> object_filter(kind + seq!['/'] + name) is None,
        object_filter(kind) is None,
{
    cut_at_the_first(kind, name, '/');
    position_is_first(kind, '/');
}

} // verus!
