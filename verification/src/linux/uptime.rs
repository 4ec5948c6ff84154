//! `/proc/uptime`: how long the machine is up and its CPUs were idle.
use super::{json_num, number_or_text, FloatReading};
use crate::format::{compact, write_compact};
use crate::number::{decimal, write_u64};
use crate::output::{Outcome, Report};
use crate::text::{lines, row, split_lines, split_words, words, write_row};
use crate::value::{json_object, opt, Json, JsonView};
use vstd::prelude::*;
use vstd::string::*;

verus! {

/// How the row is written.
#[derive(Clone, Copy, Debug, PartialEq, Eq, Structural)]
pub enum Format {
    /// Columns with tabs between them.
    Tsv,
    /// One JSON object.
    Json,
}

/// The arguments of the command.
#[derive(Debug)]
pub struct UptimeArgs {
    /// Shows the uptime in days, hours and minutes.
    pub human: bool,
    pub format: Format,
}

/// The fields of the file, as they stand there.
#[derive(Debug, PartialEq)]
pub struct Uptime {
    pub uptime: String,
    pub idle: String,
}

impl View for Uptime {
    /// The uptime and the idle time.
    type V = (Seq<char>, Seq<char>);

    open spec fn view(&self) -> (Seq<char>, Seq<char>) {
        (self.uptime@, self.idle@)
    }
}

/// The first two words of the first line.
pub open spec fn times(input: Seq<char>) -> Option<(Seq<char>, Seq<char>)> {
    if lines(input).len() == 0 {
        None
    } else {
        let t = words(lines(input)[0]);
        if t.len() < 2 {
            None
        } else {
            Some((t[0], t[1]))
        }
    }
}

/// Reads the first line of the file.
pub fn parse_uptime(input: &str) -> (r: Option<Uptime>)
    ensures
        opt(r) == times(input@),
{
    let all = split_lines(input);
    assert(all.deep_view().len() == all@.len());
    if all.len() == 0 {
        return None;
    }
    assert(all.deep_view()[0] == all@[0]@);
    let t = split_words(all[0]);
    let ghost model = t.deep_view();
    assert(model.len() == t@.len());
    if t.len() < 2 {
        return None;
    }
    assert(model[0] == t@[0]@ && model[1] == t@[1]@);
    Some(Uptime { uptime: t[0].to_owned(), idle: t[1].to_owned() })
}

/// Whole seconds as days, hours and minutes; all three are always shown.
pub open spec fn in_units(total: int) -> Seq<char> {
    decimal((total / 86400) as nat) + "d "@ + decimal(((total % 86400) / 3600) as nat) + "h "@ + decimal(
        ((total % 3600) / 60) as nat,
    ) + "m"@
}

/// Whole seconds as days, hours and minutes.
pub fn humanize(total: u64) -> (r: String)
    ensures
        r@ == in_units(total as int),
{
    let mut out = write_u64(total / 86_400);
    out.append("d ");
    out.append(write_u64((total % 86_400) / 3_600).as_str());
    out.append("h ");
    out.append(write_u64((total % 3_600) / 60).as_str());
    out.append("m");
    out
}

/// The days, hours and minutes of a time say how many whole minutes it has.
pub proof fn units_keep_the_minutes(total: int)
    requires
        0 <= total,
    ensures
        (total / 86400) * 1440 + ((total % 86400) / 3600) * 60 + (total % 3600) / 60 == total / 60,
        (total % 86400) / 3600 < 24,
        (total % 3600) / 60 < 60,
{
}

/// The whole seconds of a reading, where it is a number.
pub open spec fn whole_seconds(float: FloatReading) -> Option<u64> {
    match float {
        FloatReading::NotANumber => None,
        FloatReading::NotFinite { whole } => Some(whole),
        FloatReading::Finite { json: _, whole } => Some(whole),
    }
}

fn read_whole(float: &FloatReading) -> (r: Option<u64>)
    ensures
        r == whole_seconds(*float),
{
    match float {
        FloatReading::NotANumber => None,
        FloatReading::NotFinite { whole } => Some(*whole),
        FloatReading::Finite { json: _, whole } => Some(*whole),
    }
}

/// The object of the fields, its members by name; with the units where they are asked for.
pub open spec fn uptime_json(up: (Seq<char>, Seq<char>), uptime: FloatReading, idle: FloatReading, human: bool) -> JsonView {
    JsonView::Object(
        seq![("idle_seconds"@, number_or_text(up.1, idle))] + match whole_seconds(uptime) {
            Some(total) => if human {
                seq![("uptime_human"@, JsonView::Text(in_units(total as int)))]
            } else {
                seq![]
            },
            None => seq![],
        } + seq![("uptime_seconds"@, number_or_text(up.0, uptime))],
    )
}

/// The object of the fields. `uptime` and `idle` are what they say as floating-point numbers.
pub fn build_json(up: &Uptime, uptime: &FloatReading, idle: &FloatReading, human: bool) -> (r: Json)
    ensures
        r@ == uptime_json(up@, *uptime, *idle, human),
{
    let mut members: Vec<(&str, Json)> = Vec::new();
    members.push(("idle_seconds", json_num(up.idle.as_str(), idle)));
    if human {
        if let Some(total) = read_whole(uptime) {
            members.push(("uptime_human", Json::Text(humanize(total))));
        }
    }
    members.push(("uptime_seconds", json_num(up.uptime.as_str(), uptime)));
    assert(members.deep_view() =~= uptime_json(up@, *uptime, *idle, human)->Object_0);
    json_object(members)
}

/// The one row of the command.
pub open spec fn uptime_row(
    up: (Seq<char>, Seq<char>),
    uptime: FloatReading,
    idle: FloatReading,
    human: bool,
    format: Format,
) -> Seq<char> {
    match format {
        Format::Tsv => {
            let first = match whole_seconds(uptime) {
                Some(total) => if human {
                    in_units(total as int)
                } else {
                    up.0
                },
                None => up.0,
            };
            row(seq![first, up.1])
        },
        Format::Json => compact(uptime_json(up, uptime, idle, human)),
    }
}

/// Shows the fields of the file's text; nothing is found where it has another shape. `uptime`
/// and `idle` are what the two fields say as floating-point numbers.
pub fn run(args: &UptimeArgs, raw: &str, uptime: &FloatReading, idle: &FloatReading) -> (r: Report)
    ensures
        match times(raw@) {
            Some(up) => r.outcome == Outcome::Found && r.lines.deep_view() == seq![
                uptime_row(up, *uptime, *idle, args.human, args.format),
            ],
            None => r.outcome == Outcome::NotFound && r.lines@.len() == 0,
        },
{
    let up = match parse_uptime(raw) {
        Some(up) => up,
        None => {
            return Report { lines: Vec::new(), outcome: Outcome::NotFound };
        },
    };
    let line = match args.format {
        Format::Tsv => {
            let first = match read_whole(uptime) {
                Some(total) => if args.human {
                    humanize(total)
                } else {
                    up.uptime.clone()
                },
                None => up.uptime.clone(),
            };
            let fields = vec![first.as_str(), up.idle.as_str()];
            assert(fields.deep_view() =~= seq![first@, up.idle@]);
            write_row(&fields)
        },
        Format::Json => write_compact(&build_json(&up, uptime, idle, args.human)),
    };
    let lines = vec![line];
    assert(lines.deep_view() =~= seq![line@]);
    Report { lines, outcome: Outcome::Found }
}

/// A time is told in days, hours and minutes, all three of them; the seconds left are not told.
pub proof fn units_are_told(d: nat, h: nat, m: nat, s: nat)
    requires
        h < 24,
        m < 60,
        s < 60,
    ensures
        in_units((((d * 24 + h) * 60 + m) * 60 + s) as int) == decimal(d) + "d "@ + decimal(h) + "h "@ + decimal(m) + "m"@,
{
    let total = ((d * 24 + h) * 60 + m) * 60 + s;
    assert(total == d * 86400 + h * 3600 + m * 60 + s);
    assert(total / 86400 == d);
    assert(total % 86400 == h * 3600 + m * 60 + s);
    assert((total % 86400) / 3600 == h);
    assert(total % 3600 == m * 60 + s);
    assert((total % 3600) / 60 == m);
}

/// The uptime and the idle time are the first two words of the first line.
pub proof fn times_come_from_the_first_line(input: Seq<char>)
    requires
        lines(input).len() > 0,
    ensures
        words(lines(input)[0]).len() < 2 ==> times(input) is None,
        words(lines(input)[0]).len() >= 2 ==> times(input) == Some((words(lines(input)[0])[0], words(lines(input)[0])[1])),
{
}

/// The row shows the uptime, in units where that is asked for and it is a number, and the idle time
/// as it is.
pub proof fn times_are_shown(up: (Seq<char>, Seq<char>), uptime: FloatReading, idle: FloatReading)
    ensures
        uptime_row(up, uptime, idle, false, Format::Tsv) == row(seq![up.0, up.1]),
        uptime is NotANumber ==> uptime_row(up, uptime, idle, true, Format::Tsv) == row(seq![up.0, up.1]),
        uptime is Finite ==> uptime_row(up, uptime, idle, true, Format::Tsv) == row(
            seq![in_units(uptime->Finite_whole as int), up.1],
        ),
        uptime_row(up, uptime, idle, false, Format::Json) == compact(
            JsonView::Object(
                seq![("idle_seconds"@, number_or_text(up.1, idle)), ("uptime_seconds"@, number_or_text(up.0, uptime))],
            ),
        ),
        uptime is Finite ==> uptime_row(up, uptime, idle, true, Format::Json) == compact(
            JsonView::Object(
                seq![
                    ("idle_seconds"@, number_or_text(up.1, idle)),
                    ("uptime_human"@, JsonView::Text(in_units(uptime->Finite_whole as int))),
                    ("uptime_seconds"@, number_or_text(up.0, uptime)),
                ],
            ),
        ),
{
    assert(uptime_json(up, uptime, idle, false)->Object_0 =~= seq![
        ("idle_seconds"@, number_or_text(up.1, idle)),
        ("uptime_seconds"@, number_or_text(up.0, uptime)),
    ]);
    if uptime is Finite {
        assert(uptime_json(up, uptime, idle, true)->Object_0 =~= seq![
            ("idle_seconds"@, number_or_text(up.1, idle)),
            ("uptime_human"@, JsonView::Text(in_units(uptime->Finite_whole as int))),
            ("uptime_seconds"@, number_or_text(up.0, uptime)),
        ]);
    }
}

} // verus!
