//! `/proc/loadavg`: the load and the process counts.
use super::{json_num, number_or_text, FloatReading};
use crate::format::{compact, write_compact};
use crate::output::{Outcome, Report};
use crate::text::{
    cut, cut_at_the_first, lines, position_is_first, row, split_lines, split_once, split_words, words, write_row,
};
use crate::value::{json_object, opt, Json, JsonView};
use vstd::prelude::*;
use vstd::string::*;

verus! {

/// How the row is written.
#[derive(Clone, Copy, Debug, PartialEq, Eq, Structural)]
pub enum Format {
    /// Columns with tabs between them.
    Tsv,
    /// One JSON object.
    Json,
}

/// The arguments of the command.
#[derive(Debug)]
pub struct LoadavgArgs {
    pub format: Format,
}

/// The fields of the file, as they stand there.
#[derive(Debug, PartialEq)]
pub struct LoadAvg {
    pub one: String,
    pub five: String,
    pub fifteen: String,
    pub running: String,
    pub total: String,
    pub last_pid: String,
}

impl View for LoadAvg {
    /// The load over one, five and fifteen minutes, the running and all entities, the last PID.
    type V = Seq<Seq<char>>;

    open spec fn view(&self) -> Seq<Seq<char>> {
        seq![self.one@, self.five@, self.fifteen@, self.running@, self.total@, self.last_pid@]
    }
}

/// What the fields say as floating-point numbers.
#[derive(Debug, PartialEq)]
pub struct LoadReadings {
    pub one: FloatReading,
    pub five: FloatReading,
    pub fifteen: FloatReading,
    pub running: FloatReading,
    pub total: FloatReading,
    pub last_pid: FloatReading,
}

/// The fields of the first line: five words at least, a slash in the fourth.
pub open spec fn load(input: Seq<char>) -> Option<Seq<Seq<char>>> {
    if lines(input).len() == 0 {
        None
    } else {
        let t = words(lines(input)[0]);
        if t.len() < 5 {
            None
        } else {
            match cut(t[3], '/') {
                Some((running, total)) => Some(seq![t[0], t[1], t[2], running, total, t[4]]),
                None => None,
            }
        }
    }
}

/// Reads the first line of the file.
pub fn parse_loadavg(input: &str) -> (r: Option<LoadAvg>)
    ensures
        opt(r) == load(input@),
{
    let all = split_lines(input);
    assert(all.deep_view().len() == all@.len());
    if all.len() == 0 {
        return None;
    }
    assert(all.deep_view()[0] == all@[0]@);
    let t = split_words(all[0]);
    let ghost model = t.deep_view();
    assert(model.len() == t@.len());
    if t.len() < 5 {
        return None;
    }
    assert(model[0] == t@[0]@ && model[1] == t@[1]@ && model[2] == t@[2]@ && model[3] == t@[3]@ && model[4] == t@[4]@);
    match split_once(t[3], '/') {
        Some((running, total)) => Some(
            LoadAvg {
                one: t[0].to_owned(),
                five: t[1].to_owned(),
                fifteen: t[2].to_owned(),
                running: running.to_owned(),
                total: total.to_owned(),
                last_pid: t[4].to_owned(),
            },
        ),
        None => None,
    }
}

/// The object of the fields, its members by name, numbers as numbers.
pub open spec fn load_json(la: Seq<Seq<char>>, floats: LoadReadings) -> JsonView {
    JsonView::Object(
        seq![
            ("15m"@, number_or_text(la[2], floats.fifteen)),
            ("1m"@, number_or_text(la[0], floats.one)),
            ("5m"@, number_or_text(la[1], floats.five)),
            ("last_pid"@, number_or_text(la[5], floats.last_pid)),
            ("running"@, number_or_text(la[3], floats.running)),
            ("total"@, number_or_text(la[4], floats.total)),
        ],
    )
}

/// The object of the fields. `floats` is what they say as floating-point numbers.
pub fn build_json(la: &LoadAvg, floats: &LoadReadings) -> (r: Json)
    ensures
        r@ == load_json(la@, *floats),
{
    let members = vec![
        ("15m", json_num(la.fifteen.as_str(), &floats.fifteen)),
        ("1m", json_num(la.one.as_str(), &floats.one)),
        ("5m", json_num(la.five.as_str(), &floats.five)),
        ("last_pid", json_num(la.last_pid.as_str(), &floats.last_pid)),
        ("running", json_num(la.running.as_str(), &floats.running)),
        ("total", json_num(la.total.as_str(), &floats.total)),
    ];
    assert(members.deep_view() =~= load_json(la@, *floats)->Object_0);
    json_object(members)
}

/// The one row of the command.
pub open spec fn load_row(la: Seq<Seq<char>>, floats: LoadReadings, format: Format) -> Seq<char> {
    match format {
        Format::Tsv => row(la),
        Format::Json => compact(load_json(la, floats)),
    }
}

/// Shows the fields of the file's text; nothing is found where it has another shape.
pub fn run(args: &LoadavgArgs, raw: &str, floats: &LoadReadings) -> (r: Report)
    ensures
        match load(raw@) {
            Some(la) => r.outcome == Outcome::Found && r.lines.deep_view() == seq![
                load_row(la, *floats, args.format),
            ],
            None => r.outcome == Outcome::NotFound && r.lines@.len() == 0,
        },
{
    let la = match parse_loadavg(raw) {
        Some(la) => la,
        None => {
            return Report { lines: Vec::new(), outcome: Outcome::NotFound };
        },
    };
    let line = match args.format {
        Format::Tsv => {
            let fields = vec![
                la.one.as_str(),
                la.five.as_str(),
                la.fifteen.as_str(),
                la.running.as_str(),
                la.total.as_str(),
                la.last_pid.as_str(),
            ];
            assert(fields.deep_view() =~= la@);
            write_row(&fields)
        },
        Format::Json => write_compact(&build_json(&la, floats)),
    };
    let lines = vec![line];
    assert(lines.deep_view() =~= seq![line@]);
    Report { lines, outcome: Outcome::Found }
}

/// The fields of the first line are its first three words, what stands before and behind the first
/// slash of the fourth, and the fifth. A line with fewer words, or without that slash, has none.
pub proof fn loads_come_from_the_first_line(input: Seq<char>, running: Seq<char>, total: Seq<char>)
    requires
        lines(input).len() > 0,
        !running.contains('/'),
    ensures
        ({
            let t = words(lines(input)[0]);
            &&& t.len() < 5 ==> load(input) is None
            &&& t.len() >= 5 && t[3] == running ==> load(input) is None
            &&& t.len() >= 5 && t[3] == running + seq!['/'] + total ==> load(input) == Some(
                seq![t[0], t[1], t[2], running, total, t[4]],
            )
        }),
{
    cut_at_the_first(running, total, '/');
    position_is_first(running, '/');
}

/// The object of the loads holds each of them under its name.
pub proof fn loads_are_named(la: Seq<Seq<char>>, floats: LoadReadings)
    requires
        la.len() == 6,
    ensures
        load_row(la, floats, Format::Tsv) == row(la),
        load_row(la, floats, Format::Json) == compact(load_json(la, floats)),
        ({
            let members = load_json(la, floats)->Object_0;
            &&& load_json(la, floats) is Object && members.len() == 6
            &&& members.contains(("1m"@, number_or_text(la[0], floats.one)))
            &&& members.contains(("5m"@, number_or_text(la[1], floats.five)))
            &&& members.contains(("15m"@, number_or_text(la[2], floats.fifteen)))
            &&& members.contains(("running"@, number_or_text(la[3], floats.running)))
            &&& members.contains(("total"@, number_or_text(la[4], floats.total)))
            &&& members.contains(("last_pid"@, number_or_text(la[5], floats.last_pid)))
        }),
{
    let m = load_json(la, floats)->Object_0;
    assert(m[0] == ("15m"@, number_or_text(la[2], floats.fifteen)));
    assert(m[1] == ("1m"@, number_or_text(la[0], floats.one)));
    assert(m[2] == ("5m"@, number_or_text(la[1], floats.five)));
    assert(m[3] == ("last_pid"@, number_or_text(la[5], floats.last_pid)));
    assert(m[4] == ("running"@, number_or_text(la[3], floats.running)));
    assert(m[5] == ("total"@, number_or_text(la[4], floats.total)));
}

} // verus!
